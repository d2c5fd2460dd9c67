//! Calendar times: the local wall-clock stamps of commits and of the bounds
//! of a digest's period, the instants (Unix seconds) those bounds are, and
//! their textual forms. Parsing, time-zone mapping and formatting are
//! chrono's; the choices around them are made here.

use vstd::prelude::*;
use chrono::{Datelike, Timelike, TimeZone};
use crate::text::{decimal, pad_zeros, concat3, str_eq};

verus! {

/// A calendar date and wall-clock time to the second, as chrono's
/// `NaiveDateTime` accessors give them.
#[derive(Debug, Clone, Copy, PartialEq, Eq, Structural)]
pub struct DateStamp {
    pub year: i32,
    pub month: u32,
    pub day: u32,
    pub hour: u32,
    pub minute: u32,
    pub second: u32,
}

pub open spec fn is_leap_year(y: int) -> bool {
    (y % 4 == 0 && y % 100 != 0) || y % 400 == 0
}

pub open spec fn days_in_month(y: int, m: int) -> int {
    if m == 2 {
        if is_leap_year(y) { 29 } else { 28 }
    } else if m == 4 || m == 6 || m == 9 || m == 11 {
        30
    } else {
        31
    }
}

/// A stamp that chrono can represent: a real date within chrono's years and
/// a time of day.
pub open spec fn valid_stamp(s: DateStamp) -> bool {
    &&& -262143 <= s.year <= 262142
    &&& 1 <= s.month <= 12
    &&& 1 <= s.day <= days_in_month(s.year as int, s.month as int)
    &&& s.hour < 24
    &&& s.minute < 60
    &&& s.second < 60
}

/// The first instant (Unix seconds) handled here: a day after the start of
/// chrono's calendar (January 1 of 262144 BCE), so that every time zone
/// offset, which chrono keeps under a day, stays inside it.
pub const CALENDAR_MIN: i64 = -8_334_601_228_800;

/// The last instant handled here: a day before the end of chrono's
/// calendar (December 31 of 262142 CE).
pub const CALENDAR_MAX: i64 = 8_210_266_790_399;

/// Instants that lie inside chrono's calendar with a day to spare, where
/// every time zone maps them to a local stamp.
pub open spec fn in_calendar(ts: int) -> bool {
    CALENDAR_MIN <= ts <= CALENDAR_MAX
}

/// Whether an instant lies inside chrono's calendar with a day to spare.
pub fn is_in_calendar(ts: i64) -> (r: bool)
    ensures
        r == in_calendar(ts as int),
{
    CALENDAR_MIN <= ts && ts <= CALENDAR_MAX
}

/// `%Y`: four digits for years 0 to 9999, else a sign and at least four digits.
pub open spec fn year_text(y: int) -> Seq<char> {
    if 0 <= y <= 9999 {
        pad_zeros(decimal(y as nat), 4)
    } else if y > 9999 {
        seq!['+'] + pad_zeros(decimal(y as nat), 4)
    } else {
        seq!['-'] + pad_zeros(decimal((-y) as nat), 4)
    }
}

/// A two-digit field (`%m`, `%d`, `%H`, `%M`, `%S`).
pub open spec fn two_digits(v: nat) -> Seq<char> {
    pad_zeros(decimal(v), 2)
}

/// `%Y-%m-%d`.
pub open spec fn date_text(s: DateStamp) -> Seq<char> {
    year_text(s.year as int) + "-"@ + two_digits(s.month as nat) + "-"@ + two_digits(s.day as nat)
}

/// `%Y-%m-%d %H:%M`.
pub open spec fn minute_text(s: DateStamp) -> Seq<char> {
    date_text(s) + " "@ + two_digits(s.hour as nat) + ":"@ + two_digits(s.minute as nat)
}

/// `%Y-%m-%dT%H:%M:%S`.
pub open spec fn second_text(s: DateStamp) -> Seq<char> {
    date_text(s) + "T"@ + two_digits(s.hour as nat) + ":"@ + two_digits(s.minute as nat) + ":"@
        + two_digits(s.second as nat)
}

/// What `NaiveDateTime::parse_from_str(s, "%Y-%m-%dT%H:%M:%S")` gives.
pub uninterp spec fn chrono_datetime_parse(s: Seq<char>) -> Option<DateStamp>;

/// What `NaiveDate::parse_from_str(s, "%Y-%m-%d")` gives, as a stamp at
/// midnight.
pub uninterp spec fn chrono_date_parse(s: Seq<char>) -> Option<DateStamp>;

/// `NaiveDateTime::parse_from_str` with the format `%Y-%m-%dT%H:%M:%S`.
/// Trusted: the result is named, not computed here; chrono only makes
/// valid date-times.
#[verifier::external_body]
pub fn parse_datetime(s: &str) -> (r: Option<DateStamp>)
    ensures
        r == chrono_datetime_parse(s@),
        r matches Some(d) ==> valid_stamp(d),
{
    match chrono::NaiveDateTime::parse_from_str(s, "%Y-%m-%dT%H:%M:%S") {
        Ok(d) => Some(DateStamp {
            year: d.year(),
            month: d.month(),
            day: d.day(),
            hour: d.hour(),
            minute: d.minute(),
            second: d.second(),
        }),
        Err(_) => None,
    }
}

/// `NaiveDate::parse_from_str` with the format `%Y-%m-%d`. Trusted: the
/// result is named, not computed here; chrono only makes valid dates.
#[verifier::external_body]
pub fn parse_date(s: &str) -> (r: Option<DateStamp>)
    ensures
        r == chrono_date_parse(s@),
        r matches Some(d) ==> valid_stamp(d) && d.hour == 0 && d.minute == 0 && d.second == 0,
{
    match chrono::NaiveDate::parse_from_str(s, "%Y-%m-%d") {
        Ok(d) => Some(DateStamp { year: d.year(), month: d.month(), day: d.day(), hour: 0, minute: 0, second: 0 }),
        Err(_) => None,
    }
}

/// How the local time zone maps a wall-clock stamp to instants (Unix seconds).
#[derive(Debug, Clone, Copy, PartialEq, Eq, Structural)]
pub enum LocalMapping {
    /// The stamp falls in a gap of the local clock.
    Missing,
    Single(i64),
    /// The stamp happens twice: the earlier and the later instant.
    Ambiguous(i64, i64),
}

/// `NaiveDateTime::and_local_timezone(Local)`, as instants. Trusted: what
/// comes back depends on the machine's time zone; nothing is promised of it.
#[verifier::external_body]
pub fn local_mapping(s: &DateStamp) -> (r: LocalMapping)
    requires
        valid_stamp(*s),
{
    let d = chrono::NaiveDate::from_ymd_opt(s.year, s.month, s.day).unwrap().and_hms_opt(
        s.hour,
        s.minute,
        s.second,
    ).unwrap();
    match d.and_local_timezone(chrono::Local) {
        chrono::LocalResult::Single(t) => LocalMapping::Single(t.timestamp()),
        chrono::LocalResult::Ambiguous(a, b) => LocalMapping::Ambiguous(a.timestamp(), b.timestamp()),
        chrono::LocalResult::None => LocalMapping::Missing,
    }
}

/// `Local::now()`, as an instant. Trusted: the current time, of which only
/// this is promised: chrono's `Utc::now` panics rather than give a time
/// before the Unix epoch.
#[verifier::external_body]
pub fn now_timestamp() -> (r: i64)
    ensures
        r >= 0,
{
    chrono::Local::now().timestamp()
}

/// The number of days from 1970-01-01 to the given date of the proleptic
/// Gregorian calendar (negative before it).
pub open spec fn days_from_civil(y: int, m: int, d: int) -> int {
    let y2 = if m <= 2 { y - 1 } else { y };
    let era = y2 / 400;
    let yoe = y2 - era * 400;
    let mp = if m > 2 { m - 3 } else { m + 9 };
    let doy = (153 * mp + 2) / 5 + d - 1;
    let doe = yoe * 365 + yoe / 4 - yoe / 100 + doy;
    era * 146097 + doe - 719468
}

/// The Unix seconds a stamp would be if it were read as UTC.
pub open spec fn stamp_seconds(s: DateStamp) -> int {
    days_from_civil(s.year as int, s.month as int, s.day as int) * 86400 + s.hour * 3600 + s.minute * 60
        + s.second
}

/// Whether `s` is a wall-clock reading of instant `ts` in some time zone:
/// it differs from the UTC reading by less than a day, as every offset
/// chrono can represent does.
pub open spec fn local_reading_of(s: DateStamp, ts: int) -> bool {
    ts - 86400 < stamp_seconds(s) < ts + 86400
}

/// `Local.timestamp_opt(ts, 0)`: the local wall-clock stamp of an instant.
/// Trusted: it depends on the machine's time zone, so which stamp comes
/// back is not stated. chrono only makes valid date-times, maps every
/// instant of this range, and reads it as the UTC date-time of `ts`
/// (`DateTime::from_timestamp`) plus the zone's offset, which is a
/// `FixedOffset` and so less than a day either way (`FixedOffset::east_opt`).
#[verifier::external_body]
pub fn local_stamp(ts: i64) -> (r: DateStamp)
    requires
        in_calendar(ts as int),
    ensures
        valid_stamp(r),
        local_reading_of(r, ts as int),
{
    let d = chrono::Local.timestamp_opt(ts, 0).unwrap().naive_local();
    DateStamp {
        year: d.year(),
        month: d.month(),
        day: d.day(),
        hour: d.hour(),
        minute: d.minute(),
        second: d.second(),
    }
}

/// `NaiveDateTime::format(fmt).to_string()` for the three formats used
/// here (any other format string could make `to_string` panic). Trusted:
/// chrono writes `%Y` as four digits for years 0 to 9999 and as a sign and
/// at least four digits otherwise, and the other fields as two zero-padded
/// digits.
#[verifier::external_body]
fn format_stamp(s: &DateStamp, fmt: &str) -> (r: String)
    requires
        valid_stamp(*s),
        fmt@ == "%Y-%m-%d"@ || fmt@ == "%Y-%m-%d %H:%M"@ || fmt@ == "%Y-%m-%dT%H:%M:%S"@,
    ensures
        fmt@ == "%Y-%m-%d"@ ==> r@ == date_text(*s),
        fmt@ == "%Y-%m-%d %H:%M"@ ==> r@ == minute_text(*s),
        fmt@ == "%Y-%m-%dT%H:%M:%S"@ ==> r@ == second_text(*s),
{
    chrono::NaiveDate::from_ymd_opt(s.year, s.month, s.day).unwrap().and_hms_opt(
        s.hour,
        s.minute,
        s.second,
    ).unwrap().format(fmt).to_string()
}

/// A stamp in the form `YYYY-MM-DD`.
pub fn format_date(s: &DateStamp) -> (r: String)
    requires
        valid_stamp(*s),
    ensures
        r@ == date_text(*s),
{
    format_stamp(s, "%Y-%m-%d")
}

/// A stamp in the form `YYYY-MM-DD HH:MM`.
pub fn format_minutes(s: &DateStamp) -> (r: String)
    requires
        valid_stamp(*s),
    ensures
        r@ == minute_text(*s),
{
    format_stamp(s, "%Y-%m-%d %H:%M")
}

/// A stamp in the form `YYYY-MM-DDTHH:MM:SS`.
pub fn format_seconds(s: &DateStamp) -> (r: String)
    requires
        valid_stamp(*s),
    ensures
        r@ == second_text(*s),
{
    format_stamp(s, "%Y-%m-%dT%H:%M:%S")
}

// ---------------------------------------------------------------------
// Relative periods
// ---------------------------------------------------------------------

/// The length in seconds of a period named `24h`, `7d` or `30d`.
pub open spec fn period_seconds(last: Seq<char>) -> Option<int> {
    if last == "24h"@ {
        Some(86_400)
    } else if last == "7d"@ {
        Some(604_800)
    } else if last == "30d"@ {
        Some(2_592_000)
    } else {
        None
    }
}

pub open spec fn invalid_period_message(last: Seq<char>) -> Seq<char> {
    "invalid duration '"@ + last + "', use 24h|7d|30d"@
}

/// The period named `last` that ends at `now`.
pub fn resolve_last_at(last: &str, now: i64) -> (r: Result<(i64, i64), String>)
    requires
        now >= i64::MIN + 2_592_000,
    ensures
        match period_seconds(last@) {
            Some(d) => r == Ok::<(i64, i64), String>(((now - d) as i64, now)),
            None => r is Err && r->Err_0@ == invalid_period_message(last@),
        },
{
    if str_eq(last, "24h") {
        Ok((now - 86_400, now))
    } else if str_eq(last, "7d") {
        Ok((now - 604_800, now))
    } else if str_eq(last, "30d") {
        Ok((now - 2_592_000, now))
    } else {
        Err(concat3("invalid duration '", last, "', use 24h|7d|30d"))
    }
}

/// The period named `last` (`24h`, `7d` or `30d`, case-sensitive) that ends
/// now, as a pair of instants.
pub fn resolve_last(last: &str) -> (r: Result<(i64, i64), String>)
    ensures
        match period_seconds(last@) {
            Some(d) => r matches Ok((since, until)) && until - since == d && until >= 0,
            None => r is Err && r->Err_0@ == invalid_period_message(last@),
        },
{
    let now = now_timestamp();
    resolve_last_at(last, now)
}

// ---------------------------------------------------------------------
// Dates given on the command line or at the prompt
// ---------------------------------------------------------------------

/// Which instant a local time stands for where the local clock shows it
/// twice: none (it is ambiguous), the earlier or the later.
#[derive(Debug, Clone, Copy, PartialEq, Eq, Structural)]
pub enum Pick {
    Single,
    Earliest,
    Latest,
}

/// The instant a local stamp stands for, given how the time zone maps it:
/// none where the local clock never shows it.
pub open spec fn picked_instant(m: LocalMapping, pick: Pick) -> Option<i64> {
    match m {
        LocalMapping::Missing => None,
        LocalMapping::Single(t) => Some(t),
        LocalMapping::Ambiguous(a, b) => match pick {
            Pick::Single => None,
            Pick::Earliest => Some(a),
            Pick::Latest => Some(b),
        },
    }
}

pub open spec fn invalid_date_message(s: Seq<char>) -> Seq<char> {
    "invalid date '"@ + s + "', use YYYY-MM-DD"@
}

pub open spec fn ambiguous_time_message(s: Seq<char>) -> Seq<char> {
    "ambiguous local time for '"@ + s + "'"@
}

/// The local stamp of the date `d` at the given time of day.
pub open spec fn stamp_at(d: DateStamp, h: u32, m: u32, sec: u32) -> DateStamp {
    DateStamp { year: d.year, month: d.month, day: d.day, hour: h, minute: m, second: sec }
}

/// The local stamp that the date `s` (`YYYY-MM-DD`) at `h:m:sec` names.
pub open spec fn spec_date_stamp_at(s: Seq<char>, h: u32, m: u32, sec: u32) -> Option<DateStamp> {
    match chrono_date_parse(s) {
        Some(d) => Some(stamp_at(d, h, m, sec)),
        None => None,
    }
}

/// The local stamp of the date `s` (`YYYY-MM-DD`) at `h:m:sec`.
pub fn date_stamp_at(s: &str, h: u32, m: u32, sec: u32) -> (r: Option<DateStamp>)
    requires
        h < 24,
        m < 60,
        sec < 60,
    ensures
        r == spec_date_stamp_at(s@, h, m, sec),
        r matches Some(st) ==> valid_stamp(st),
{
    match parse_date(s) {
        None => None,
        Some(d) => Some(DateStamp { year: d.year, month: d.month, day: d.day, hour: h, minute: m, second: sec }),
    }
}

/// The instant that the date text `s` stands for, given how the time zone
/// maps its local stamp.
pub fn instant_for(s: &str, mapping: &LocalMapping, pick: Pick) -> (r: Result<i64, String>)
    ensures
        match picked_instant(*mapping, pick) {
            Some(t) => r == Ok::<i64, String>(t),
            None => r is Err && r->Err_0@ == ambiguous_time_message(s@),
        },
{
    let t = match mapping {
        LocalMapping::Missing => None,
        LocalMapping::Single(t) => Some(*t),
        LocalMapping::Ambiguous(a, b) => match pick {
            Pick::Single => None,
            Pick::Earliest => Some(*a),
            Pick::Latest => Some(*b),
        },
    };
    match t {
        Some(t) => Ok(t),
        None => Err(concat3("ambiguous local time for '", s, "'")),
    }
}

/// The instant of the date `s` (`YYYY-MM-DD`) at `h:m:sec` local time: the
/// stamp `date_stamp_at` gives, as the time zone maps it (`instant_for`).
pub fn parse_date_at(s: &str, h: u32, m: u32, sec: u32, pick: Pick) -> (r: Result<i64, String>)
    requires
        h < 24,
        m < 60,
        sec < 60,
    ensures
        chrono_date_parse(s@) is None ==> r is Err && r->Err_0@ == invalid_date_message(s@),
        chrono_date_parse(s@) is Some ==> r is Ok || r->Err_0@ == ambiguous_time_message(s@),
{
    match date_stamp_at(s, h, m, sec) {
        None => Err(concat3("invalid date '", s, "', use YYYY-MM-DD")),
        Some(st) => {
            let mapping = local_mapping(&st);
            instant_for(s, &mapping, pick)
        },
    }
}

} // verus!

verus! {

/// A `--since` date: the start of the day, local time; an error where the
/// local clock shows that time never or twice.
pub fn parse_since_date(s: &str) -> (r: Result<i64, String>)
    ensures
        chrono_date_parse(s@) is None ==> r is Err && r->Err_0@ == invalid_date_message(s@),
        chrono_date_parse(s@) is Some ==> r is Ok || r->Err_0@ == ambiguous_time_message(s@),
{
    parse_date_at(s, 0, 0, 0, Pick::Single)
}

/// An `--until` date: the last second of the day, local time; an error
/// where the local clock shows that time never or twice.
pub fn parse_until_date(s: &str) -> (r: Result<i64, String>)
    ensures
        chrono_date_parse(s@) is None ==> r is Err && r->Err_0@ == invalid_date_message(s@),
        chrono_date_parse(s@) is Some ==> r is Ok || r->Err_0@ == ambiguous_time_message(s@),
{
    parse_date_at(s, 23, 59, 59, Pick::Single)
}

} // verus!
