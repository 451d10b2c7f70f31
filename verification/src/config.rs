//! Preferences (date format, refresh interval) and the date texts shown in
//! the commit list and the blame view.
use vstd::prelude::*;

use crate::text::{chars_of, decimal, push_all, push_decimal, string_of};

verus! {

broadcast use vstd::string::group_string_axioms;

/// How dates are written.
#[derive(Debug, Clone, Copy, PartialEq, Eq, Structural)]
pub enum DateFormat {
    European,
    Iso,
    American,
}

/// User preferences.
#[derive(Debug, Clone, Copy)]
pub struct AppConfig {
    pub date_format: DateFormat,
    pub refresh_interval_secs: u32,
}

impl Default for AppConfig {
    fn default() -> (r: AppConfig)
        ensures
            r.date_format == DateFormat::European,
            r.refresh_interval_secs == 15,
    {
        AppConfig { date_format: DateFormat::European, refresh_interval_secs: 15 }
    }
}

/// The text that `chrono` writes for the UTC instant `secs` seconds after the
/// Unix epoch with the format string `pattern`; `None` when `chrono` cannot
/// represent that instant.
pub uninterp spec fn chrono_utc_format(secs: i64, pattern: Seq<char>) -> Option<Seq<char>>;

/// The format strings this library hands to `chrono`.
pub open spec fn known_pattern(p: Seq<char>) -> bool {
    ||| p == "%d.%m.%Y"@
    ||| p == "%Y-%m-%d"@
    ||| p == "%m/%d/%Y"@
    ||| p == "%d.%m.%Y %H:%M:%S UTC"@
    ||| p == "%Y-%m-%d %H:%M:%S UTC"@
    ||| p == "%m/%d/%Y %H:%M:%S UTC"@
}

/// Formats the UTC instant `secs` with `chrono` (`DateTime::from_timestamp`,
/// then `format`). The contract claims that the result is `None` exactly when
/// `chrono_utc_format` is, that the text is the named one, and that instants
/// within about 250,000 years of 1970 are representable (chrono's range ends
/// at the years -262143 and 262142). The format strings are restricted to
/// those this library uses, all of which `chrono` accepts.
#[verifier::external_body]
fn format_utc(secs: i64, pattern: &str) -> (r: Option<String>)
    requires
        known_pattern(pattern@),
    ensures
        match r {
            Some(s) => chrono_utc_format(secs, pattern@) == Some(s@),
            None => chrono_utc_format(secs, pattern@) is None,
        },
        -8_000_000_000_000 <= secs <= 8_000_000_000_000 ==> r is Some,
{
    chrono::DateTime::from_timestamp(secs, 0).map(|d| d.format(pattern).to_string())
}

/// The label shown for a date format.
pub open spec fn label_of(f: DateFormat) -> Seq<char> {
    match f {
        DateFormat::European => "dd.MM.yyyy"@,
        DateFormat::Iso => "yyyy-MM-dd"@,
        DateFormat::American => "MM/dd/yyyy"@,
    }
}

/// The `chrono` format string for a date (`with_time` false) or a date and
/// time of day.
pub open spec fn pattern_of(f: DateFormat, with_time: bool) -> Seq<char> {
    match f {
        DateFormat::European => if with_time {
            "%d.%m.%Y %H:%M:%S UTC"@
        } else {
            "%d.%m.%Y"@
        },
        DateFormat::Iso => if with_time {
            "%Y-%m-%d %H:%M:%S UTC"@
        } else {
            "%Y-%m-%d"@
        },
        DateFormat::American => if with_time {
            "%m/%d/%Y %H:%M:%S UTC"@
        } else {
            "%m/%d/%Y"@
        },
    }
}

/// The position of a format in the preferences list.
pub open spec fn index_of(f: DateFormat) -> u32 {
    match f {
        DateFormat::European => 0,
        DateFormat::Iso => 1,
        DateFormat::American => 2,
    }
}

/// The format at a position of the preferences list; European for any
/// position past the list.
pub open spec fn format_at(i: u32) -> DateFormat {
    if i == 1 {
        DateFormat::Iso
    } else if i == 2 {
        DateFormat::American
    } else {
        DateFormat::European
    }
}

impl DateFormat {
    pub fn label(&self) -> (r: &'static str)
        ensures
            r@ == label_of(*self),
    {
        match self {
            DateFormat::European => "dd.MM.yyyy",
            DateFormat::Iso => "yyyy-MM-dd",
            DateFormat::American => "MM/dd/yyyy",
        }
    }

    /// The `chrono` format string for this format.
    pub fn pattern(&self, with_time: bool) -> (r: &'static str)
        ensures
            r@ == pattern_of(*self, with_time),
            known_pattern(r@),
    {
        match self {
            DateFormat::European => if with_time {
                "%d.%m.%Y %H:%M:%S UTC"
            } else {
                "%d.%m.%Y"
            },
            DateFormat::Iso => if with_time {
                "%Y-%m-%d %H:%M:%S UTC"
            } else {
                "%Y-%m-%d"
            },
            DateFormat::American => if with_time {
                "%m/%d/%Y %H:%M:%S UTC"
            } else {
                "%m/%d/%Y"
            },
        }
    }

    /// The date of the instant `time_unix` (seconds since the epoch, UTC);
    /// `None` when `chrono` cannot represent it.
    pub fn format_date(&self, time_unix: i64) -> (r: Option<String>)
        ensures
            match r {
                Some(s) => chrono_utc_format(time_unix, pattern_of(*self, false)) == Some(s@),
                None => chrono_utc_format(time_unix, pattern_of(*self, false)) is None,
            },
            -8_000_000_000_000 <= time_unix <= 8_000_000_000_000 ==> r is Some,
    {
        format_utc(time_unix, self.pattern(false))
    }

    /// The date and time of day of the instant `time_unix`, in UTC; `None`
    /// when `chrono` cannot represent it.
    pub fn format_datetime(&self, time_unix: i64) -> (r: Option<String>)
        ensures
            match r {
                Some(s) => chrono_utc_format(time_unix, pattern_of(*self, true)) == Some(s@),
                None => chrono_utc_format(time_unix, pattern_of(*self, true)) is None,
            },
            -8_000_000_000_000 <= time_unix <= 8_000_000_000_000 ==> r is Some,
    {
        format_utc(time_unix, self.pattern(true))
    }

    pub fn index(&self) -> (r: u32)
        ensures
            r == index_of(*self),
    {
        match self {
            DateFormat::European => 0,
            DateFormat::Iso => 1,
            DateFormat::American => 2,
        }
    }

    pub fn from_index(i: u32) -> (r: DateFormat)
        ensures
            r == format_at(i),
    {
        match i {
            1 => DateFormat::Iso,
            2 => DateFormat::American,
            _ => DateFormat::European,
        }
    }
}

/// A format survives the trip through its list position.
pub proof fn law_index_round_trip(f: DateFormat)
    ensures
        format_at(index_of(f)) == f,
        index_of(f) < 3,
{
}

/// A list position survives the trip through its format when it is in the
/// list; any other position reads as the first format.
pub proof fn law_from_index_round_trip(i: u32)
    ensures
        i < 3 ==> index_of(format_at(i)) == i,
        i >= 3 ==> format_at(i) == DateFormat::European,
{
}

/// The age label of something that happened `d` seconds ago, or `date` once
/// it is five weeks old or more.
pub open spec fn age_label(d: int, date: Seq<char>) -> Seq<char> {
    if d < 60 {
        "just now"@
    } else if d < 3600 {
        decimal((d / 60) as nat) + " min ago"@
    } else if d < 86400 {
        decimal((d / 3600) as nat) + "h ago"@
    } else if d < 604800 {
        decimal((d / 86400) as nat) + "d ago"@
    } else if d < 3024000 {
        decimal((d / 604800) as nat) + "w ago"@
    } else {
        date
    }
}

/// The label of a commit made at `time_unix`, seen at `now_unix`. A time
/// that `chrono` cannot represent counts as the epoch.
pub open spec fn relative_time(time_unix: i64, now_unix: i64, f: DateFormat) -> Seq<char> {
    let p = pattern_of(f, false);
    match chrono_utc_format(time_unix, p) {
        Some(date) => age_label(now_unix - time_unix, date),
        None => age_label(now_unix - 0, chrono_utc_format(0, p)->0),
    }
}

/// The label of a commit made at `time_unix` when the time is `now_unix`:
/// "just now", minutes, hours, days or weeks ago, and past five weeks the
/// date itself.
pub fn format_relative_time(time_unix: i64, now_unix: i64, date_format: DateFormat) -> (r: String)
    ensures
        r@ == relative_time(time_unix, now_unix, date_format),
{
    let (time, date) = match date_format.format_date(time_unix) {
        Some(s) => (time_unix, s),
        None => match date_format.format_date(0) {
            Some(s) => (0i64, s),
            None => {
                return String::new();  // not reached: the epoch is always representable

            },
        },
    };
    let d: i128 = now_unix as i128 - time as i128;
    let mut out: Vec<char> = Vec::new();
    if d < 60 {
        return string_of(&chars_of("just now"));
    } else if d < 3600 {
        push_decimal(&mut out, (d / 60) as u64);
        push_all(&mut out, &chars_of(" min ago"));
    } else if d < 86400 {
        push_decimal(&mut out, (d / 3600) as u64);
        push_all(&mut out, &chars_of("h ago"));
    } else if d < 604800 {
        push_decimal(&mut out, (d / 86400) as u64);
        push_all(&mut out, &chars_of("d ago"));
    } else if d < 3024000 {
        push_decimal(&mut out, (d / 604800) as u64);
        push_all(&mut out, &chars_of("w ago"));
    } else {
        return date;
    }
    string_of(&out)
}

/// The date shown in the blame view: empty for a zero or unrepresentable
/// time, else `yyyy-mm-dd`.
pub open spec fn blame_date(seconds: i64) -> Seq<char> {
    if seconds == 0 {
        Seq::empty()
    } else {
        match chrono_utc_format(seconds, "%Y-%m-%d"@) {
            Some(s) => s,
            None => Seq::empty(),
        }
    }
}

/// Formats a blame timestamp as `yyyy-mm-dd` (empty for 0).
pub fn format_timestamp(seconds: i64) -> (r: String)
    ensures
        r@ == blame_date(seconds),
{
    if seconds == 0 {
        return String::new();
    }
    match format_utc(seconds, "%Y-%m-%d") {
        Some(s) => s,
        None => String::new(),
    }
}

} // verus!
