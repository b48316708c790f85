//! Locale backends: wall-clock date and time, time-zone offset, and the
//! time since launch, as plain calendar values. The testing backend
//! reports a fixed Nepali moment; the desktop backend asks the clock
//! through its trusted wrappers.
use chrono::{Datelike, Timelike};
use vstd::prelude::*;

verus! {

/// A calendar date and time, field by field.
#[derive(Clone, Copy, PartialEq, Eq, Structural, Debug)]
pub struct DateTimeParts {
    pub year: i32,
    pub month: u8,
    pub day: u8,
    pub hour: u8,
    pub minute: u8,
    pub second: u8,
}

impl DateTimeParts {
    /// The calendar fields lie in their ranges (seconds admit the leap
    /// second).
    pub open spec fn wf(&self) -> bool {
        &&& 1 <= self.month <= 12
        &&& 1 <= self.day <= 31
        &&& self.hour < 24
        &&& self.minute < 60
        &&& self.second <= 60
    }
}

/// The number of days in a month of a year (with the leap rule).
pub open spec fn spec_days_in_month(year: int, month: int) -> int {
    if month == 2 {
        if (year % 4 == 0 && year % 100 != 0) || year % 400 == 0 {
            29
        } else {
            28
        }
    } else if month == 4 || month == 6 || month == 9 || month == 11 {
        30
    } else {
        31
    }
}

fn days_in_month(year: i32, month: u8) -> (r: u8)
    requires
        1 <= month <= 12,
    ensures
        r as int == spec_days_in_month(year as int, month as int),
        28 <= r <= 31,
{
    if month == 2 {
        if (year % 4 == 0 && year % 100 != 0) || year % 400 == 0 {
            29
        } else {
            28
        }
    } else if month == 4 || month == 6 || month == 9 || month == 11 {
        30
    } else {
        31
    }
}

/// A local moment moved to the zero meridian: the offset (under one
/// day, as offsets are) is subtracted from the time of day, rolling at
/// most one calendar day back or forward.
pub fn local_to_utc(local: DateTimeParts, offset_seconds: i32) -> (r: DateTimeParts)
    requires
        local.wf(),
        local.second < 60,
        -86400 < offset_seconds < 86400,
        -1000000 < local.year < 1000000,
    ensures
        r.wf(),
        ({
            let day_secs = local.hour as int * 3600 + local.minute as int * 60 + local.second
                as int - offset_seconds;
            (day_secs >= 0 && day_secs < 86400) ==> (r.year == local.year && r.month == local.month
                && r.day == local.day && r.hour as int * 3600 + r.minute as int * 60 + r.second
                as int == day_secs)
        }),
    {
    let day_secs: i64 = local.hour as i64 * 3600 + local.minute as i64 * 60 + local.second as i64
        - offset_seconds as i64;
    if day_secs >= 0 && day_secs < 86400 {
        let s = day_secs as u32;
        DateTimeParts {
            year: local.year,
            month: local.month,
            day: local.day,
            hour: (s / 3600) as u8,
            minute: ((s / 60) % 60) as u8,
            second: (s % 60) as u8,
        }
    } else if day_secs < 0 {
        let s = (day_secs + 86400) as u32;
        let (year, month, day): (i32, u8, u8) = if local.day > 1 {
            (local.year, local.month, local.day - 1)
        } else if local.month > 1 {
            (local.year, local.month - 1, days_in_month(local.year, local.month - 1))
        } else {
            (local.year - 1, 12, 31)
        };
        DateTimeParts {
            year,
            month,
            day,
            hour: (s / 3600) as u8,
            minute: ((s / 60) % 60) as u8,
            second: (s % 60) as u8,
        }
    } else {
        let s = (day_secs - 86400) as u32;
        let dim = days_in_month(local.year, local.month);
        let (year, month, day): (i32, u8, u8) = if local.day < dim {
            (local.year, local.month, local.day + 1)
        } else if local.month < 12 {
            (local.year, local.month + 1, 1)
        } else {
            (local.year + 1, 1, 1)
        };
        DateTimeParts {
            year,
            month,
            day,
            hour: (s / 3600) as u8,
            minute: ((s / 60) % 60) as u8,
            second: (s % 60) as u8,
        }
    }
}

/// What a host must answer about time and place: the moment now (at the
/// zero meridian), the zone offset in seconds, and the milliseconds
/// since the player launched.
pub trait LocaleBackend {
    fn time_since_launch_ms(&self) -> u64;

    fn get_current_date_time(&self) -> (r: DateTimeParts)
        ensures
            r.wf(),
    ;

    fn get_timezone(&self) -> (r: i32)
        ensures
            -86400 < r < 86400,
    ;
}

/// A locale backend that mostly does nothing. For tests it emulates
/// being in Nepal with a local time of 2001-02-03 at 04:05:06: the
/// offset of +5:45 has never observed daylight saving, which makes it
/// an ideal fixed subject.
pub struct NullLocaleBackend {}

impl NullLocaleBackend {
    pub fn new() -> (r: NullLocaleBackend)
        ensures
            r == (NullLocaleBackend {  }),
    {
        NullLocaleBackend {  }
    }
}

impl Default for NullLocaleBackend {
    fn default() -> (r: NullLocaleBackend)
        ensures
            r == (NullLocaleBackend {  }),
    {
        NullLocaleBackend {  }
    }
}

impl LocaleBackend for NullLocaleBackend {
    fn time_since_launch_ms(&self) -> u64 {
        0
    }

    fn get_current_date_time(&self) -> (r: DateTimeParts) {
        let nepal = DateTimeParts { year: 2001, month: 2, day: 3, hour: 4, minute: 5, second: 6 };
        local_to_utc(nepal, 20700)
    }

    fn get_timezone(&self) -> (r: i32) {
        20700
    }
}

/// Relies on std's `SystemTime`: milliseconds since the epoch, zero on
/// a clock before it. Nothing can be promised of a clock reading.
#[verifier::external_body]
fn current_millis() -> (r: u64) {
    match std::time::SystemTime::now().duration_since(std::time::UNIX_EPOCH) {
        Ok(d) => d.as_millis() as u64,
        Err(_) => 0,
    }
}

/// Relies on chrono's `DateTime::from_timestamp` and its calendar
/// accessors: the fields of the current moment, read from a guarded
/// timestamp (a clock before the epoch or beyond chrono's range falls
/// back to the epoch, where `Utc::now` itself would abort). Of every
/// outcome only the field ranges hold: the accessors keep months in one
/// to twelve, days in one to thirty-one, and clock fields under their
/// bases, seconds admitting the leap second.
#[verifier::external_body]
fn chrono_utc_now_parts() -> (r: (i32, u32, u32, u32, u32, u32))
    ensures
        1 <= r.1 <= 12,
        1 <= r.2 <= 31,
        r.3 < 24,
        r.4 < 60,
        r.5 <= 60,
{
    let secs = match std::time::SystemTime::now().duration_since(std::time::UNIX_EPOCH) {
        Ok(d) => d.as_secs() as i64,
        Err(_) => 0,
    };
    let now = chrono::DateTime::from_timestamp(secs, 0).unwrap_or_default();
    (now.year(), now.month(), now.day(), now.hour(), now.minute(), now.second())
}

/// Relies on chrono's `Local` zone lookup (`offset_from_utc_datetime`),
/// asked at a guarded, clamped timestamp so the pre-epoch abort inside
/// `Local::now` is never reached; every `FixedOffset` chrono constructs
/// is strictly within one day. (The lookup itself still aborts on an
/// undecodable zone database, as every local-time query of this crate
/// does.)
#[verifier::external_body]
fn chrono_local_offset_seconds() -> (r: i32)
    ensures
        -86400 < r < 86400,
{
    let secs = match std::time::SystemTime::now().duration_since(std::time::UNIX_EPOCH) {
        Ok(d) => d.as_secs().min(4102444800) as i64,
        Err(_) => 0,
    };
    let now = chrono::DateTime::from_timestamp(secs, 0).unwrap_or_default();
    chrono::TimeZone::offset_from_utc_datetime(&chrono::Local, &now.naive_utc())
        .local_minus_utc()
}

/// The desktop locale backend: the real clock and zone, behind the
/// chrono wrappers, with the launch moment remembered at construction.
pub struct DesktopLocaleBackend {
    start_ms: u64,
}

impl DesktopLocaleBackend {
    pub fn new() -> (r: DesktopLocaleBackend) {
        DesktopLocaleBackend { start_ms: current_millis() }
    }
}

impl LocaleBackend for DesktopLocaleBackend {
    fn time_since_launch_ms(&self) -> u64 {
        let now = current_millis();
        if now >= self.start_ms {
            now - self.start_ms
        } else {
            0
        }
    }

    fn get_current_date_time(&self) -> (r: DateTimeParts) {
        let (year, month, day, hour, minute, second) = chrono_utc_now_parts();
        DateTimeParts {
            year,
            month: month as u8,
            day: day as u8,
            hour: hour as u8,
            minute: minute as u8,
            second: second as u8,
        }
    }

    fn get_timezone(&self) -> (r: i32) {
        chrono_local_offset_seconds()
    }
}

} // verus!
