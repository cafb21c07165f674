//! Log severity levels as the PLC sends them, and their OpenTelemetry mapping.

use vstd::prelude::*;

verus! {

/// Log severity level, numbered as in the ADS binary protocol.
#[derive(Debug, Clone, Copy, PartialEq, Eq, Structural, PartialOrd, Ord, Hash)]
pub enum LogLevel {
    Trace,
    Debug,
    Info,
    Warn,
    Error,
    Fatal,
}

/// The protocol number of a level: Trace is 0, Fatal is 5.
pub open spec fn level_number(l: LogLevel) -> u8 {
    match l {
        LogLevel::Trace => 0,
        LogLevel::Debug => 1,
        LogLevel::Info => 2,
        LogLevel::Warn => 3,
        LogLevel::Error => 4,
        LogLevel::Fatal => 5,
    }
}

/// The level with protocol number `b`, if there is one.
pub open spec fn level_of_number(b: u8) -> Option<LogLevel> {
    if b == 0 {
        Some(LogLevel::Trace)
    } else if b == 1 {
        Some(LogLevel::Debug)
    } else if b == 2 {
        Some(LogLevel::Info)
    } else if b == 3 {
        Some(LogLevel::Warn)
    } else if b == 4 {
        Some(LogLevel::Error)
    } else if b == 5 {
        Some(LogLevel::Fatal)
    } else {
        None
    }
}

/// OpenTelemetry SeverityNumber: the first number of each severity range.
pub open spec fn otel_severity_number(l: LogLevel) -> i32 {
    match l {
        LogLevel::Trace => 1,
        LogLevel::Debug => 5,
        LogLevel::Info => 9,
        LogLevel::Warn => 13,
        LogLevel::Error => 17,
        LogLevel::Fatal => 21,
    }
}

/// OpenTelemetry SeverityText.
pub open spec fn otel_severity_text(l: LogLevel) -> Seq<char> {
    match l {
        LogLevel::Trace => "TRACE"@,
        LogLevel::Debug => "DEBUG"@,
        LogLevel::Info => "INFO"@,
        LogLevel::Warn => "WARN"@,
        LogLevel::Error => "ERROR"@,
        LogLevel::Fatal => "FATAL"@,
    }
}

/// Human-readable name of a level.
pub open spec fn level_name(l: LogLevel) -> Seq<char> {
    match l {
        LogLevel::Trace => "Trace"@,
        LogLevel::Debug => "Debug"@,
        LogLevel::Info => "Info"@,
        LogLevel::Warn => "Warn"@,
        LogLevel::Error => "Error"@,
        LogLevel::Fatal => "Fatal"@,
    }
}

impl LogLevel {
    /// The protocol number of this level.
    pub fn as_u8(&self) -> (b: u8)
        ensures
            b == level_number(*self),
    {
        match self {
            LogLevel::Trace => 0,
            LogLevel::Debug => 1,
            LogLevel::Info => 2,
            LogLevel::Warn => 3,
            LogLevel::Error => 4,
            LogLevel::Fatal => 5,
        }
    }

    /// The level with protocol number `val`; `None` for numbers above 5.
    pub fn from_u8(val: u8) -> (res: Option<LogLevel>)
        ensures
            res == level_of_number(val),
            res is Some <==> val <= 5,
    {
        match val {
            0 => Some(LogLevel::Trace),
            1 => Some(LogLevel::Debug),
            2 => Some(LogLevel::Info),
            3 => Some(LogLevel::Warn),
            4 => Some(LogLevel::Error),
            5 => Some(LogLevel::Fatal),
            _ => None,
        }
    }

    /// OpenTelemetry SeverityNumber of this level.
    pub fn to_otel_severity_number(&self) -> (n: i32)
        ensures
            n == otel_severity_number(*self),
            n == 4 * level_number(*self) + 1,
    {
        match self {
            LogLevel::Trace => 1,
            LogLevel::Debug => 5,
            LogLevel::Info => 9,
            LogLevel::Warn => 13,
            LogLevel::Error => 17,
            LogLevel::Fatal => 21,
        }
    }

    /// OpenTelemetry SeverityText of this level.
    pub fn to_otel_severity_text(&self) -> (s: &'static str)
        ensures
            s@ == otel_severity_text(*self),
    {
        match self {
            LogLevel::Trace => "TRACE",
            LogLevel::Debug => "DEBUG",
            LogLevel::Info => "INFO",
            LogLevel::Warn => "WARN",
            LogLevel::Error => "ERROR",
            LogLevel::Fatal => "FATAL",
        }
    }

    /// Human-readable name of this level ("Trace" .. "Fatal").
    pub fn to_string(&self) -> (s: String)
        ensures
            s@ == level_name(*self),
    {
        match self {
            LogLevel::Trace => String::from_str("Trace"),
            LogLevel::Debug => String::from_str("Debug"),
            LogLevel::Info => String::from_str("Info"),
            LogLevel::Warn => String::from_str("Warn"),
            LogLevel::Error => String::from_str("Error"),
            LogLevel::Fatal => String::from_str("Fatal"),
        }
    }
}

/// A level's number reads back as the same level.
pub proof fn lemma_level_number_roundtrip(l: LogLevel)
    ensures
        level_of_number(level_number(l)) == Some(l),
{
}

/// A number that names a level is that level's number.
pub proof fn lemma_number_level_roundtrip(b: u8)
    ensures
        level_of_number(b) matches Some(l) ==> level_number(l) == b,
        level_of_number(b) is Some <==> b <= 5,
{
}

/// Severity numbers keep the order of the levels: a more severe level never
/// gets a smaller OpenTelemetry number.
pub proof fn lemma_severity_order(a: LogLevel, b: LogLevel)
    ensures
        level_number(a) < level_number(b) <==> otel_severity_number(a) < otel_severity_number(b),
        level_number(a) == level_number(b) <==> a == b,
{
}

} // verus!
