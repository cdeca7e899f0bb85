//! Local time for the long listing's date column, through `chrono`.

use vstd::prelude::*;
use chrono::{Datelike, Timelike};
use crate::text::{decimal, digit_char};

verus! {

/// A point in local time, down to the minute.
pub struct LocalTime {
    pub year: i32,
    pub month: u32,
    pub day: u32,
    pub hour: u32,
    pub minute: u32,
}

/// The earliest year that `chrono`'s dates reach.
pub const MIN_YEAR: i32 = -262143;

/// The latest year that `chrono`'s dates reach.
pub const MAX_YEAR: i32 = 262142;

/// The earliest Unix time, in seconds, that converts to local time: one day
/// after the start of `chrono`'s range, so that no time-zone offset leaves it.
pub const MIN_TIMESTAMP: i64 = -8334601142400;

/// The latest Unix time, in seconds, that converts to local time: one day
/// before the end of `chrono`'s range.
pub const MAX_TIMESTAMP: i64 = 8210266790399;

/// Whether `y` is a leap year of the proleptic Gregorian calendar.
pub open spec fn is_leap_year(y: int) -> bool {
    (y % 4 == 0 && y % 100 != 0) || y % 400 == 0
}

/// The number of days in month `m` (1 to 12) of year `y`.
pub open spec fn days_in_month(y: int, m: int) -> int {
    if m == 2 {
        if is_leap_year(y) {
            29
        } else {
            28
        }
    } else if m == 4 || m == 6 || m == 9 || m == 11 {
        30
    } else {
        31
    }
}

/// A calendar date and time of day that exists, within `chrono`'s range.
pub open spec fn valid_local(t: LocalTime) -> bool {
    &&& MIN_YEAR <= t.year <= MAX_YEAR
    &&& 1 <= t.month <= 12
    &&& 1 <= t.day <= days_in_month(t.year as int, t.month as int)
    &&& t.hour < 24
    &&& t.minute < 60
}

/// Whether a Unix time (seconds) can be shown in local time.
pub open spec fn in_time_range(secs: i64) -> bool {
    MIN_TIMESTAMP <= secs <= MAX_TIMESTAMP
}

/// The number of days from 1 January 1970 to the given date of the proleptic
/// Gregorian calendar (negative before it).
pub open spec fn days_from_civil(y: int, m: int, d: int) -> int {
    let yy = if m <= 2 { y - 1 } else { y };
    let era = yy / 400;
    let yoe = yy - era * 400;
    let mp = if m > 2 { m - 3 } else { m + 9 };
    let doy = (153 * mp + 2) / 5 + d - 1;
    let doe = yoe * 365 + yoe / 4 - yoe / 100 + doy;
    era * 146097 + doe - 719468
}

/// The minutes from the start of 1 January 1970 to `t`, reading `t` on the
/// same calendar.
pub open spec fn local_minutes(t: LocalTime) -> int {
    days_from_civil(t.year as int, t.month as int, t.day as int) * 1440 + t.hour * 60 + t.minute
}

/// `t` is the local time, to the minute, at Unix time `secs` in some time zone:
/// the local clock reads `secs` shifted by an offset of less than a day, and
/// `t` is that reading with its seconds dropped.
pub open spec fn local_of(secs: int, t: LocalTime) -> bool {
    secs - 86400 < local_minutes(t) * 60 + 60 && local_minutes(t) * 60 < secs + 86400
}

/// The English abbreviation of month `m` (1 to 12).
pub open spec fn month_abbrev(m: int) -> Seq<char> {
    if m == 1 {
        "Jan"@
    } else if m == 2 {
        "Feb"@
    } else if m == 3 {
        "Mar"@
    } else if m == 4 {
        "Apr"@
    } else if m == 5 {
        "May"@
    } else if m == 6 {
        "Jun"@
    } else if m == 7 {
        "Jul"@
    } else if m == 8 {
        "Aug"@
    } else if m == 9 {
        "Sep"@
    } else if m == 10 {
        "Oct"@
    } else if m == 11 {
        "Nov"@
    } else {
        "Dec"@
    }
}

/// `v` (below 100) in two digits, zero-padded.
pub open spec fn two_digits(v: int) -> Seq<char> {
    seq![digit_char((v / 10) as nat), digit_char((v % 10) as nat)]
}

/// `v` (below 100) in two characters, space-padded.
pub open spec fn space_padded(v: int) -> Seq<char> {
    if v < 10 {
        seq![' ', digit_char(v as nat)]
    } else {
        two_digits(v)
    }
}

/// The decimal numeral of `n`, zero-padded to four digits.
pub open spec fn four_digits(n: nat) -> Seq<char> {
    let d = decimal(n);
    if d.len() < 4 {
        Seq::new((4 - d.len()) as nat, |i: int| '0') + d
    } else {
        d
    }
}

/// A year as `%Y` writes it: four digits (zero-padded) for years 0 to 9999,
/// else a sign followed by at least four digits.
pub open spec fn year_text(y: int) -> Seq<char> {
    if 0 <= y <= 9999 {
        four_digits(y as nat)
    } else if y >= 0 {
        seq!['+'] + four_digits(y as nat)
    } else {
        seq!['-'] + four_digits((-y) as nat)
    }
}

/// `%b %e %H:%M` applied to `t`, such as `Jan  3 14:23`.
pub open spec fn clock_text(t: LocalTime) -> Seq<char> {
    month_abbrev(t.month as int) + seq![' '] + space_padded(t.day as int) + seq![' '] + two_digits(
        t.hour as int,
    ) + seq![':'] + two_digits(t.minute as int)
}

/// `%b %e %Y` applied to `t`, such as `Jan  3 2024`.
pub open spec fn date_text(t: LocalTime) -> Seq<char> {
    month_abbrev(t.month as int) + seq![' '] + space_padded(t.day as int) + seq![' '] + year_text(
        t.year as int,
    )
}

/// The local time at Unix time `secs`, through `chrono`'s
/// `DateTime::from_timestamp` and `with_timezone(&Local)`. Which offset applies
/// depends on the machine's time zone, so what is stated holds of every zone:
/// the fields form an existing date within `chrono`'s range (`chrono` documents
/// month 1 to 12, day 1 to 31 and valid for the month, hour 0 to 23, minute 0
/// to 59, and years between `NaiveDate::MIN` and `NaiveDate::MAX`), and they
/// read `secs` shifted by the zone's offset, which as a `FixedOffset` is less
/// than a day either way. `from_timestamp` gives `Some` for any timestamp in
/// range.
#[verifier::external_body]
pub(crate) fn local_time_at(secs: i64) -> (r: LocalTime)
    requires
        in_time_range(secs),
    ensures
        valid_local(r),
        local_of(secs as int, r),
{
    let dt = chrono::DateTime::from_timestamp(secs, 0).unwrap().with_timezone(&chrono::Local);
    LocalTime {
        year: dt.year(),
        month: dt.month(),
        day: dt.day(),
        hour: dt.hour(),
        minute: dt.minute(),
    }
}

/// The system clock's reading, through `std::time::SystemTime::now` and
/// `duration_since(UNIX_EPOCH)`: the whole seconds and nanoseconds after the
/// epoch (`Ok`), or before it (`Err`). It depends on the clock, so nothing is
/// stated of it.
#[verifier::external_body]
fn clock_reading() -> Result<(u64, u32), (u64, u32)> {
    match std::time::SystemTime::now().duration_since(std::time::UNIX_EPOCH) {
        Ok(d) => Ok((d.as_secs(), d.subsec_nanos())),
        Err(e) => Err((e.duration().as_secs(), e.duration().subsec_nanos())),
    }
}

/// Unix time in whole seconds, rounded down, from a clock reading: `Ok` with
/// the seconds and nanoseconds after the epoch, `Err` with those before it;
/// `None` when the seconds do not fit in an `i64`. With nanoseconds below a
/// second, the result `x` is the floor of the reading: `x` seconds are at most
/// the reading, and `x + 1` seconds are more.
pub fn unix_seconds(reading: Result<(u64, u32), (u64, u32)>) -> (r: Option<i64>)
    ensures
        ({
            let (secs, nanos) = match reading {
                Ok(v) => v,
                Err(v) => v,
            };
            &&& r is None <==> secs > i64::MAX
            &&& (r is Some && nanos < 1_000_000_000) ==> {
                let x = r->0;
                let ns: int = match reading {
                    Ok(_) => secs * 1_000_000_000 + nanos,
                    Err(_) => -(secs * 1_000_000_000 + nanos),
                };
                &&& x * 1_000_000_000 <= ns
                &&& ns < (x + 1) * 1_000_000_000
            }
        }),
{
    match reading {
        Ok((secs, _)) => {
            if secs <= 9223372036854775807u64 {
                Some(secs as i64)
            } else {
                None
            }
        },
        Err((secs, nanos)) => {
            if secs <= 9223372036854775807u64 {
                let back = secs as i64;
                if nanos == 0 {
                    Some(-back)
                } else {
                    Some(-back - 1)
                }
            } else {
                None
            }
        },
    }
}

/// The local time at Unix time `secs` (in whole seconds), when there is one
/// and it can be shown in local time; `None` otherwise.
pub fn local_time_of(secs: Option<i64>) -> (r: Option<LocalTime>)
    ensures
        match secs {
            Some(t) => if in_time_range(t) {
                r matches Some(lt) && valid_local(lt) && local_of(t as int, lt)
            } else {
                r is None
            },
            None => r is None,
        },
{
    match secs {
        Some(t) => {
            if MIN_TIMESTAMP <= t && t <= MAX_TIMESTAMP {
                Some(local_time_at(t))
            } else {
                None
            }
        },
        None => None,
    }
}

/// The current local time, when the system clock reads a time that can be
/// shown in local time (before 1970 too); `None` otherwise.
pub(crate) fn local_now() -> (r: Option<LocalTime>)
    ensures
        r matches Some(t) ==> valid_local(t),
{
    local_time_of(unix_now())
}

/// The current Unix time in whole seconds (rounded down), when it fits in an
/// `i64`.
fn unix_now() -> (r: Option<i64>) {
    unix_seconds(clock_reading())
}

/// `chrono`'s `NaiveDate::from_ymd_opt(..).and_hms_opt(.., 0)` followed by
/// `format(pattern).to_string()`. Both constructors return `Some` on an
/// existing date and time in range (as `chrono` documents). Without the
/// `unstable-locales` feature `%b` is the English month abbreviation; `%e` is
/// the day padded with a space to two characters, `%H` and `%M` are zero-padded
/// to two digits, and `%Y` is zero-padded to four digits, with a sign outside
/// 0 to 9999. Only the two patterns that the listing uses are admitted.
#[verifier::external_body]
fn naive_format(t: &LocalTime, pattern: &str) -> (r: Option<String>)
    requires
        pattern@ == "%b %e %H:%M"@ || pattern@ == "%b %e %Y"@,
    ensures
        r matches Some(s) ==> (pattern@ == "%b %e %H:%M"@ ==> s@ == clock_text(*t)),
        r matches Some(s) ==> (pattern@ == "%b %e %Y"@ ==> s@ == date_text(*t)),
        valid_local(*t) ==> r is Some,
{
    match chrono::NaiveDate::from_ymd_opt(t.year, t.month, t.day) {
        Some(d) => match d.and_hms_opt(t.hour, t.minute, 0) {
            Some(dt) => Some(dt.format(pattern).to_string()),
            None => None,
        },
        None => None,
    }
}

/// The date column for a file modified at local time `t`, when the current
/// year is `now_year` (`None` when the current time is unknown): the time of
/// day for this year's files, the year for older (or newer) ones and for all
/// files when the current year is unknown.
pub open spec fn time_text(t: LocalTime, now_year: Option<i32>) -> Seq<char> {
    if now_year == Some(t.year) {
        clock_text(t)
    } else {
        date_text(t)
    }
}

/// Formats local time `t` as the date column: `Jan  3 14:23` within the
/// current year, `Jan  3 2024` otherwise.
pub fn format_local(t: &LocalTime, now_year: Option<i32>) -> (r: String)
    requires
        valid_local(*t),
    ensures
        r@ == time_text(*t, now_year),
{
    let same_year = match now_year {
        Some(y) => y == t.year,
        None => false,
    };
    let pattern = if same_year {
        "%b %e %H:%M"
    } else {
        "%b %e %Y"
    };
    proof {
        reveal_strlit("%b %e %H:%M");
        reveal_strlit("%b %e %Y");
    }
    match naive_format(t, pattern) {
        Some(s) => s,
        None => String::new(),
    }
}

/// The date column for a file modified at Unix time `t` (seconds), when the
/// current year is `now_year` (`None` when unknown).
pub fn date_column(t: i64, now_year: Option<i32>) -> (r: String)
    requires
        in_time_range(t),
    ensures
        exists|lt: LocalTime|
            valid_local(lt) && local_of(t as int, lt) && r@ == #[trigger] time_text(lt, now_year),
{
    let lt = local_time_at(t);
    let r = format_local(&lt, now_year);
    assert(valid_local(lt) && local_of(t as int, lt) && r@ == time_text(lt, now_year));
    r
}

/// The date column for a file modified at Unix time `t` (seconds), given the
/// current local time.
pub fn format_time(t: i64, now: &LocalTime) -> (r: String)
    requires
        in_time_range(t),
    ensures
        exists|lt: LocalTime|
            valid_local(lt) && local_of(t as int, lt) && r@ == #[trigger] time_text(
                lt,
                Some(now.year),
            ),
{
    date_column(t, Some(now.year))
}

} // verus!
