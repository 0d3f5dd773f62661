//! Log levels, the level threshold, and the timestamps log lines carry.
use vstd::prelude::*;
use vstd::string::*;

use crate::text::{all_ascii, ascii_string, lemma_padded_ascii, padded_decimal, push_padded};
use crate::clock::{epoch_offset_of, secs_of, subsec_millis_of};
use std::time::{Duration, SystemTime};

verus! {

/// The severity level of a log message.
#[derive(Debug, Clone, Copy, PartialEq, Eq, PartialOrd, Ord, Structural)]
pub enum LogLevel {
    /// Extremely fine-grained informational events that are most useful to debug an application.
    Trace,
    /// Fine-grained informational events that are useful to debug an application.
    Debug,
    /// Informational messages that highlight the progress of the application at coarse-grained level.
    Info,
    /// Potentially harmful situations.
    Warn,
    /// Error events that might still allow the application to continue running.
    Error,
    /// Disables all logging.
    Off,
}

/// The numeric code of a level; levels are ordered by it.
pub open spec fn level_code(l: LogLevel) -> u8 {
    match l {
        LogLevel::Trace => 0,
        LogLevel::Debug => 1,
        LogLevel::Info => 2,
        LogLevel::Warn => 3,
        LogLevel::Error => 4,
        LogLevel::Off => 5,
    }
}

/// The name a level is printed with.
pub open spec fn level_name(l: LogLevel) -> Seq<char> {
    match l {
        LogLevel::Trace => "TRACE"@,
        LogLevel::Debug => "DEBUG"@,
        LogLevel::Info => "INFO"@,
        LogLevel::Warn => "WARN"@,
        LogLevel::Error => "ERROR"@,
        LogLevel::Off => "None"@,
    }
}

/// The level a stored code stands for; an unknown code means `Info`.
pub open spec fn level_of_code(code: u8) -> LogLevel {
    if code == 0 {
        LogLevel::Trace
    } else if code == 1 {
        LogLevel::Debug
    } else if code == 2 {
        LogLevel::Info
    } else if code == 3 {
        LogLevel::Warn
    } else if code == 4 {
        LogLevel::Error
    } else if code == 5 {
        LogLevel::Off
    } else {
        LogLevel::Info
    }
}

/// Whether a message of level `l` is printed under the threshold `t`.
pub open spec fn passes_threshold(l: LogLevel, t: LogLevel) -> bool {
    level_code(l) >= level_code(t)
}

/// The levels from least to most severe, `Off` last: the order the levels
/// are declared in and the order a threshold is compared by.
pub open spec fn severity_order() -> Seq<LogLevel> {
    seq![LogLevel::Trace, LogLevel::Debug, LogLevel::Info, LogLevel::Warn, LogLevel::Error, LogLevel::Off]
}

/// A message is printed under a threshold exactly when its level comes at
/// or after the threshold in the order of severity; and a level stored by
/// its code reads back as itself.
pub proof fn law_levels_pass_by_severity(i: int, j: int, l: LogLevel)
    requires
        0 <= i < 6,
        0 <= j < 6,
    ensures
        passes_threshold(severity_order()[i], severity_order()[j]) == (i >= j),
        level_of_code(level_code(l)) == l,
        severity_order().contains(l),
{
    let o = severity_order();
    assert(o[0] == LogLevel::Trace);
    assert(o[1] == LogLevel::Debug);
    assert(o[2] == LogLevel::Info);
    assert(o[3] == LogLevel::Warn);
    assert(o[4] == LogLevel::Error);
    assert(o[5] == LogLevel::Off);
    match l {
        LogLevel::Trace => assert(o[0] == l),
        LogLevel::Debug => assert(o[1] == l),
        LogLevel::Info => assert(o[2] == l),
        LogLevel::Warn => assert(o[3] == l),
        LogLevel::Error => assert(o[4] == l),
        LogLevel::Off => assert(o[5] == l),
    }
}

impl LogLevel {
    /// Returns the string representation of the log level.
    pub fn as_str(&self) -> (r: &'static str)
        ensures
            r@ == level_name(*self),
    {
        match self {
            LogLevel::Trace => "TRACE",
            LogLevel::Debug => "DEBUG",
            LogLevel::Info => "INFO",
            LogLevel::Warn => "WARN",
            LogLevel::Error => "ERROR",
            LogLevel::Off => "None",
        }
    }

    /// The numeric code of the level, as the threshold is stored.
    pub fn code(&self) -> (r: u8)
        ensures
            r == level_code(*self),
    {
        match self {
            LogLevel::Trace => 0,
            LogLevel::Debug => 1,
            LogLevel::Info => 2,
            LogLevel::Warn => 3,
            LogLevel::Error => 4,
            LogLevel::Off => 5,
        }
    }

    /// The level a stored code stands for; an unknown code falls back to `Info`.
    pub fn from_code(code: u8) -> (r: LogLevel)
        ensures
            r == level_of_code(code),
    {
        if code == 0 {
            LogLevel::Trace
        } else if code == 1 {
            LogLevel::Debug
        } else if code == 2 {
            LogLevel::Info
        } else if code == 3 {
            LogLevel::Warn
        } else if code == 4 {
            LogLevel::Error
        } else if code == 5 {
            LogLevel::Off
        } else {
            LogLevel::Info
        }
    }

    /// Whether a message of this level is printed under `threshold`: its
    /// level is at least the threshold.
    pub fn passes(&self, threshold: LogLevel) -> (r: bool)
        ensures
            r == passes_threshold(*self, threshold),
    {
        self.code() >= threshold.code()
    }
}

/// A printed log line: `[time] [LEVEL] [module] - message` and a newline.
pub open spec fn log_line_text(timestamp: Seq<char>, level: LogLevel, module: Seq<char>, message: Seq<char>) -> Seq<char> {
    "["@ + timestamp + "] ["@ + level_name(level) + "] ["@ + module + "] - "@ + message + "\n"@
}

/// The line a message is printed as.
pub fn log_line(timestamp: &str, level: LogLevel, module: &str, message: &str) -> (r: String)
    ensures
        r@ == log_line_text(timestamp@, level, module@, message@),
{
    let mut line = String::from_str("[");
    line.append(timestamp);
    line.append("] [");
    line.append(level.as_str());
    line.append("] [");
    line.append(module);
    line.append("] - ");
    line.append(message);
    line.append("\n");
    line
}

/// Storing a level's code and reading it back gives the level.
pub proof fn law_level_code_roundtrip(l: LogLevel)
    ensures
        level_of_code(level_code(l)) == l,
{
}

// ---------------------------------------------------------------------
// Timestamps

/// The civil date (year, month, day) of a day count since 1970-01-01 in the
/// proleptic Gregorian calendar, by the days-from-civil inversion of
/// H. Hinnant over 400-year eras.
pub open spec fn civil_from_days(days: int) -> (int, int, int) {
    let z = days + 719468;
    let era = z / 146097;
    let doe = z - era * 146097;
    let yoe = (doe - doe / 1460 + doe / 36524 - doe / 146096) / 365;
    let y = yoe + era * 400;
    let doy = doe - (365 * yoe + yoe / 4 - yoe / 100);
    let mp = (5 * doy + 2) / 153;
    let d = doy - (153 * mp + 2) / 5 + 1;
    let m = if mp < 10 {
        mp + 3
    } else {
        mp - 9
    };
    (if m <= 2 {
        y + 1
    } else {
        y
    }, m, d)
}

/// `YYYY-MM-DD HH:MM:SS.mmm` for a time since the Unix epoch, in UTC.
pub open spec fn timestamp_text(secs: nat, millis: nat) -> Seq<u8> {
    let (y, m, d) = civil_from_days((secs / 86400) as int);
    let sod = secs % 86400;
    padded_decimal(y as nat, 4) + seq![45u8] + padded_decimal(m as nat, 2) + seq![45u8]
        + padded_decimal(d as nat, 2) + seq![32u8] + padded_decimal(sod / 3600, 2) + seq![58u8]
        + padded_decimal((sod % 3600) / 60, 2) + seq![58u8] + padded_decimal(sod % 60, 2) + seq![46u8]
        + padded_decimal(millis, 3)
}

/// The date of a non-negative day count has a month in 1..=12 and a day
/// in 1..=31, and its year is at least 1970.
pub proof fn law_civil_date_in_range(days: int)
    requires
        days >= 0,
    ensures
        1 <= civil_from_days(days).1 <= 12,
        1 <= civil_from_days(days).2 <= 31,
        civil_from_days(days).0 >= 1970,
{
    let z = days + 719468;
    let era = z / 146097;
    let doe = z - era * 146097;
    assert(0 <= doe < 146097);
    let yoe = (doe - doe / 1460 + doe / 36524 - doe / 146096) / 365;
    assert(0 <= yoe <= 399);
    let doy = doe - (365 * yoe + yoe / 4 - yoe / 100);
    assert(0 <= doy <= 365) by (nonlinear_arith)
        requires
            0 <= doe < 146097,
            yoe == (doe - doe / 1460 + doe / 36524 - doe / 146096) / 365,
            doy == doe - (365 * yoe + yoe / 4 - yoe / 100),
    ;
    let mp = (5 * doy + 2) / 153;
    assert(0 <= mp <= 11);
    assert(1 <= doy - (153 * mp + 2) / 5 + 1 <= 31) by (nonlinear_arith)
        requires
            0 <= doy <= 365,
            mp == (5 * doy + 2) / 153,
    ;
    assert(era >= 4);
}

/// The text of a timestamp: `YYYY-MM-DD HH:MM:SS.mmm` in UTC.
pub fn format_timestamp(secs: u64, millis: u32) -> (r: String)
    ensures
        crate::text::str_bytes(r@) == timestamp_text(secs as nat, millis as nat),
{
    let days = secs / 86400;
    let sod = secs % 86400;
    let z: u64 = days + 719468;
    let era = z / 146097;
    let doe = z - era * 146097;
    let yoe = (doe - doe / 1460 + doe / 36524 - doe / 146096) / 365;
    let y: u64 = yoe + era * 400;
    let doy = doe - (365 * yoe + yoe / 4 - yoe / 100);
    let mp = (5 * doy + 2) / 153;
    let d = doy - (153 * mp + 2) / 5 + 1;
    let m = if mp < 10 {
        mp + 3
    } else {
        mp - 9
    };
    let year = if m <= 2 {
        y + 1
    } else {
        y
    };
    let mut out: Vec<u8> = Vec::new();
    push_padded(&mut out, year, 4);
    out.push(45);
    push_padded(&mut out, m, 2);
    out.push(45);
    push_padded(&mut out, d, 2);
    out.push(32);
    push_padded(&mut out, sod / 3600, 2);
    out.push(58);
    push_padded(&mut out, (sod % 3600) / 60, 2);
    out.push(58);
    push_padded(&mut out, sod % 60, 2);
    out.push(46);
    push_padded(&mut out, millis as u64, 3);
    proof {
        let t = timestamp_text(secs as nat, millis as nat);
        lemma_padded_ascii(year as nat, 4);
        lemma_padded_ascii(m as nat, 2);
        lemma_padded_ascii(d as nat, 2);
        lemma_padded_ascii((sod / 3600) as nat, 2);
        lemma_padded_ascii(((sod % 3600) / 60) as nat, 2);
        lemma_padded_ascii((sod % 60) as nat, 2);
        lemma_padded_ascii(millis as nat, 3);
        assert(out@ =~= t);
        crate::text::lemma_ascii_concat();
        assert(all_ascii(seq![45u8]));
        assert(all_ascii(seq![32u8]));
        assert(all_ascii(seq![58u8]));
        assert(all_ascii(seq![46u8]));
        assert(all_ascii(t));
    }
    ascii_string(out)
}


/// The timestamp for a time `since` after the Unix epoch: its whole
/// seconds and milliseconds; a time before the epoch (`None`) reads as the
/// epoch.
pub open spec fn timestamp_for(since: Option<Duration>) -> Seq<u8> {
    match since {
        Some(d) => timestamp_text(secs_of(d) as nat, subsec_millis_of(d) as nat),
        None => timestamp_text(0, 0),
    }
}

/// The text of the timestamp for a time `since` after the Unix epoch, as
/// `YYYY-MM-DD HH:MM:SS.mmm` (UTC); `None`, a time before the epoch, reads
/// as the epoch.
pub fn timestamp_of(since: Option<Duration>) -> (r: String)
    ensures
        crate::text::str_bytes(r@) == timestamp_for(since),
{
    let (secs, millis): (u64, u32) = match since {
        Some(d) => (crate::clock::duration_secs(&d), crate::clock::duration_subsec_millis(&d)),
        None => (0, 0),
    };
    format_timestamp(secs, millis)
}

/// The current time as `YYYY-MM-DD HH:MM:SS.mmm` (UTC); a clock set before
/// the Unix epoch reads as the epoch.
pub fn get_timestamp() -> (r: String)
    ensures
        exists|t: SystemTime| crate::text::str_bytes(r@) == #[trigger] timestamp_for(epoch_offset_of(t)),
{
    let now = crate::clock::system_now();
    let r = timestamp_of(crate::clock::since_unix_epoch(now));
    assert(crate::text::str_bytes(r@) == timestamp_for(epoch_offset_of(now)));
    r
}

} // verus!
