use chrono::Datelike;
use crate::text::{digit_char, digit_str};
use vstd::prelude::*;

verus! {

/// A day of the proleptic Gregorian calendar.
#[derive(Debug, Clone, Copy, PartialEq, Eq, Structural)]
pub struct CalendarDay {
    pub year: i32,
    pub month: u32,
    pub day: u32,
}

pub open spec fn is_leap_year(y: int) -> bool {
    (y % 4 == 0 && y % 100 != 0) || y % 400 == 0
}

pub open spec fn days_in_month(y: int, m: int) -> int {
    if m == 2 {
        if is_leap_year(y) {
            29
        } else {
            28
        }
    } else if m == 4 || m == 6 || m == 9 || m == 11 {
        30
    } else {
        31
    }
}

impl CalendarDay {
    /// A real day whose year is written with four digits.
    pub open spec fn wf(self) -> bool {
        &&& 0 <= self.year <= 9999
        &&& 1 <= self.month <= 12
        &&& 1 <= self.day <= days_in_month(self.year as int, self.month as int)
    }
}

/// A point in time together with the offset it was written in.
#[derive(Debug, Clone, Copy, PartialEq, Eq, Structural)]
pub struct Timestamp {
    /// Whole seconds since 1970-01-01T00:00:00Z.
    pub unix_seconds: i64,
    /// Nanoseconds past `unix_seconds`; above one second only inside a leap second.
    pub nanos: u32,
    /// Seconds east of UTC.
    pub offset_seconds: i32,
    /// The calendar day in the timestamp's own offset.
    pub date: CalendarDay,
}

pub const NANOS_PER_SECOND: i128 = 1_000_000_000;

pub const NANOS_PER_MINUTE: i128 = 60_000_000_000;

pub const SECONDS_BOUND: i64 = 274_877_906_944;

impl Timestamp {
    pub open spec fn wf(self) -> bool {
        &&& self.date.wf()
        &&& self.nanos < 2_000_000_000
        &&& -SECONDS_BOUND < self.unix_seconds < SECONDS_BOUND
        &&& -86_400 < self.offset_seconds < 86_400
    }

    /// The instant, in nanoseconds since the epoch.
    pub open spec fn instant(self) -> int {
        self.unix_seconds * NANOS_PER_SECOND + self.nanos
    }

    pub fn instant_nanos(&self) -> (r: i128)
        ensures
            r == self.instant(),
    {
        self.unix_seconds as i128 * NANOS_PER_SECOND + self.nanos as i128
    }
}

/// Whole minutes from `start` to `stop`, truncated; zero when `stop` is not later.
pub open spec fn elapsed_minutes(start: Timestamp, stop: Timestamp) -> int {
    if stop.instant() > start.instant() {
        (stop.instant() - start.instant()) / (NANOS_PER_MINUTE as int)
    } else {
        0
    }
}

pub fn minutes_between(start: &Timestamp, stop: &Timestamp) -> (r: u64)
    requires
        start.wf(),
        stop.wf(),
    ensures
        r == elapsed_minutes(*start, *stop),
{
    let a = start.instant_nanos();
    let b = stop.instant_nanos();
    if b > a {
        let d = b - a;
        let m = d / NANOS_PER_MINUTE;
        assert(m <= d) by (nonlinear_arith)
            requires
                d > 0,
                m == d / NANOS_PER_MINUTE,
        ;
        m as u64
    } else {
        0
    }
}

/// Characters that can occur in a timestamp that chrono reads as RFC 3339.
pub open spec fn is_rfc3339_char(c: char) -> bool {
    ('0' <= c && c <= '9') || c == '-' || c == ':' || c == '.' || c == '+' || c == ' '
        || c == 'T' || c == 't' || c == 'Z' || c == 'z' || c == '\u{2212}'
}

/// What chrono reads from an RFC 3339 timestamp, if it accepts it.
pub uninterp spec fn rfc3339_value(s: Seq<char>) -> Option<Timestamp>;

/// Relies on chrono's `DateTime::parse_from_rfc3339`. It reads a four-digit year, a month, a
/// day, `T`, `t` or a space, the time, an optional fraction of a second and an offset (`Z`,
/// `z` or a sign with hours and minutes), and accepts nothing after it; the day must exist
/// and the seconds field can only reach 60 as a leap second.
#[verifier::external_body]
fn parse_rfc3339(s: &str) -> (r: Option<Timestamp>)
    ensures
        r == rfc3339_value(s@),
        r is Some ==> r->Some_0.wf(),
        r is Some ==> s@.len() >= 19,
        r is Some ==> forall|i: int| 0 <= i < s@.len() ==> is_rfc3339_char(#[trigger] s@[i]),
{
    match chrono::DateTime::parse_from_rfc3339(s) {
        Ok(dt) => Some(Timestamp {
            unix_seconds: dt.timestamp(),
            nanos: dt.timestamp_subsec_nanos(),
            offset_seconds: dt.offset().local_minus_utc(),
            date: CalendarDay { year: dt.year(), month: dt.month(), day: dt.day() },
        }),
        Err(_) => None,
    }
}

/// A text that chrono reads as an RFC 3339 timestamp, with the shape every such text has.
pub open spec fn is_timestamp_text(d: Seq<char>) -> bool {
    &&& rfc3339_value(d) is Some
    &&& d.len() >= 19
    &&& forall|i: int| 0 <= i < d.len() ==> is_rfc3339_char(#[trigger] d[i])
}

/// Reads an RFC 3339 timestamp such as `2025-09-29T00:00:43.245684903+02:00`.
pub fn parse_timestamp(s: &str) -> (r: Option<Timestamp>)
    ensures
        r == rfc3339_value(s@),
        r is Some ==> r->Some_0.wf(),
        r is Some ==> is_timestamp_text(s@),
{
    parse_rfc3339(s)
}


/// The number of ISO 8601 weeks of a week-numbering year: 53 when it starts on a Thursday, or
/// on a Wednesday in a leap year, else 52.
pub open spec fn iso_weeks_in_year(year: int) -> int {
    let jan1 = weekday_of(year, 1, 1);
    if jan1 == 3 || (is_leap_year(year) && jan1 == 2) {
        53
    } else {
        52
    }
}

/// The ISO 8601 week-numbering year and week of a day: weeks start on Monday, and week 1 is
/// the one that holds the year's first Thursday.
pub open spec fn iso_week_of(year: int, month: int, day: int) -> (int, int) {
    let ordinal = days_from_epoch(year, month, day) - days_from_epoch(year, 1, 1) + 1;
    let w = (ordinal - (weekday_of(year, month, day) + 1) + 10) / 7;
    if w < 1 {
        (year - 1, iso_weeks_in_year(year - 1))
    } else if w > iso_weeks_in_year(year) {
        (year + 1, 1)
    } else {
        (year, w)
    }
}

/// Relies on chrono's `NaiveDate::iso_week`: the ISO 8601 year and week of a day.
#[verifier::external_body]
pub(crate) fn iso_week(d: &CalendarDay) -> (r: (i32, u32))
    requires
        d.wf(),
    ensures
        (r.0 as int, r.1 as int) == iso_week_of(d.year as int, d.month as int, d.day as int),
        1 <= r.1 <= 53,
{
    let w = chrono::NaiveDate::from_ymd_opt(d.year, d.month, d.day).unwrap().iso_week();
    (w.year(), w.week())
}

/// The number of days from 1970-01-01 to a day of the proleptic Gregorian calendar.
pub open spec fn days_from_epoch(year: int, month: int, day: int) -> int {
    let y = if month <= 2 {
        year - 1
    } else {
        year
    };
    let era = y / 400;
    let yoe = y - era * 400;
    let mp = if month > 2 {
        month - 3
    } else {
        month + 9
    };
    let doy = (153 * mp + 2) / 5 + day - 1;
    let doe = yoe * 365 + yoe / 4 - yoe / 100 + doy;
    era * 146097 + doe - 719468
}

/// The day of the week of a day, counted from Monday as 0 (1970-01-01 was a Thursday).
pub open spec fn weekday_of(year: int, month: int, day: int) -> int {
    (days_from_epoch(year, month, day) + 3) % 7
}

/// Relies on chrono's `NaiveDate::weekday` and `Weekday::num_days_from_monday`: the day of the
/// week in the proleptic Gregorian calendar, counted from Monday as 0.
#[verifier::external_body]
pub(crate) fn weekday_from_monday(d: &CalendarDay) -> (r: u32)
    requires
        d.wf(),
    ensures
        r as int == weekday_of(d.year as int, d.month as int, d.day as int),
{
    chrono::NaiveDate::from_ymd_opt(d.year, d.month, d.day).unwrap().weekday().num_days_from_monday()
}

/// The `YYYY-MM-DD` label of a day.
pub open spec fn day_label(d: CalendarDay) -> Seq<char> {
    let y = d.year as int;
    let m = d.month as int;
    let n = d.day as int;
    seq![
        digit_char(y / 1000),
        digit_char(y / 100 % 10),
        digit_char(y / 10 % 10),
        digit_char(y % 10),
        '-',
        digit_char(m / 10),
        digit_char(m % 10),
        '-',
        digit_char(n / 10),
        digit_char(n % 10),
    ]
}

impl CalendarDay {
    /// The `YYYY-MM-DD` label of this day.
    pub fn label(&self) -> (r: String)
        requires
            self.wf(),
        ensures
            r@ == day_label(*self),
    {
        let y = self.year as u32;
        let mut r = String::from_str(digit_str(y / 1000));
        r.append(digit_str(y / 100 % 10));
        r.append(digit_str(y / 10 % 10));
        r.append(digit_str(y % 10));
        r.append("-");
        r.append(digit_str(self.month / 10));
        r.append(digit_str(self.month % 10));
        r.append("-");
        r.append(digit_str(self.day / 10));
        r.append(digit_str(self.day % 10));
        proof {
            reveal_strlit("-");
        }
        assert(r@ =~= day_label(*self));
        r
    }
}

} // verus!
