//! Civil times and the instants they stand for on this machine.
use vstd::prelude::*;

use chrono::TimeZone;

verus! {

/// A date and a time of day, without a time zone.
#[derive(Debug)]
pub struct Civil {
    pub year: i32,
    pub month: u32,
    pub day: u32,
    pub hour: u32,
    pub minute: u32,
    pub second: u32,
    pub ms: u32,
}

/// Whether a year of the Gregorian calendar has a leap day.
pub open spec fn leap_year(y: int) -> bool {
    y % 4 == 0 && (y % 100 != 0 || y % 400 == 0)
}

/// The number of days in a month of the Gregorian calendar.
pub open spec fn month_days(y: int, m: int) -> int {
    if m == 2 {
        if leap_year(y) {
            29
        } else {
            28
        }
    } else if m == 4 || m == 6 || m == 9 || m == 11 {
        30
    } else {
        31
    }
}

/// The number of days in the months of a year before month `m`.
pub open spec fn days_before_month(y: int, m: int) -> int
    decreases m,
{
    if m <= 1 {
        0
    } else {
        days_before_month(y, m - 1) + month_days(y, m - 1)
    }
}

/// The number of leap years from the year 1 up to and not including `y`.
pub open spec fn leap_days_before(y: int) -> int {
    (y - 1) / 4 - (y - 1) / 100 + (y - 1) / 400
}

/// The day of a date, counted from 1 January 1970.
pub open spec fn epoch_day(y: int, m: int, d: int) -> int {
    365 * (y - 1970) + leap_days_before(y) - leap_days_before(1970) + days_before_month(y, m) + d - 1
}

impl Civil {
    /// Whether the calendar has this date, in the years that can be worked with, and
    /// the day has this time. A second may run over into a leap second.
    pub open spec fn exists_on_calendar(self) -> bool {
        &&& -262143 <= self.year <= 262142
        &&& 1 <= self.month <= 12
        &&& 1 <= self.day <= month_days(self.year as int, self.month as int)
        &&& self.hour < 24
        &&& self.minute < 60
        &&& self.second < 60
        &&& self.ms < 1000 || (self.second == 59 && self.ms < 2000)
    }

    /// The milliseconds from the start of 1970 to this time, both taken as UTC.
    pub open spec fn utc_ms(self) -> int {
        (((epoch_day(self.year as int, self.month as int, self.day as int) * 24 + self.hour) * 60
            + self.minute) * 60 + self.second) * 1000 + self.ms
    }
}

/// The milliseconds in a day.
pub const DAY_MS: i64 = 86_400_000;

/// The instant, in epoch milliseconds, at which the machine's local time reads `c`:
/// `chrono::NaiveDate::from_ymd_opt` and `chrono::NaiveTime::from_hms_milli_opt` make
/// the civil time, and `chrono::Local.from_local_datetime(..).earliest()` places it in
/// the machine's time zone.
///
/// The first two give nothing for a date or time that does not exist. The zone's
/// offset from UTC is a whole number of seconds and always less than a day, so the
/// instant lies within a day of the same reading in UTC, and whole seconds from it.
/// Which instant it is, and whether there is one at all (a reading that a clock change
/// skips has none), depends on the machine's time zone and is left unsaid.
#[verifier::external_body]
fn local_ms(c: &Civil) -> (r: Option<i64>)
    ensures
        r is Some ==> c.exists_on_calendar(),
        r matches Some(t) ==> -DAY_MS < t - c.utc_ms() < DAY_MS && (t - c.utc_ms()) % 1000 == 0,
{
    let date = chrono::NaiveDate::from_ymd_opt(c.year, c.month, c.day)?;
    let time = chrono::NaiveTime::from_hms_milli_opt(c.hour, c.minute, c.second, c.ms)?;
    let naive = chrono::NaiveDateTime::new(date, time);
    chrono::Local.from_local_datetime(&naive).earliest().map(|t| t.timestamp_millis())
}

/// Whether `r` is what the machine's clock may say when it is asked for the instant at
/// which it reads `c`.
pub closed spec fn placed(c: Civil, r: Option<i64>) -> bool {
    call_ensures(local_ms, (&c,), r)
}

/// The instant, in epoch milliseconds, at which the machine's local time reads `c`, as the
/// machine's clock gives it. There is none for a date or time that the calendar does not
/// have, and any there is lies within a day of the same reading in UTC, and whole seconds
/// from it.
pub fn local_instant(c: &Civil) -> (r: Option<i64>)
    ensures
        placed(*c, r),
        r is Some ==> c.exists_on_calendar(),
        r matches Some(t) ==> -DAY_MS < t - c.utc_ms() < DAY_MS && (t - c.utc_ms()) % 1000 == 0,
{
    local_ms(c)
}

} // verus!
