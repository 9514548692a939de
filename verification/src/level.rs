//! Severity levels of Laravel log entries.
use vstd::prelude::*;
use crate::text::{all_ascii, ascii_lower, ascii_upper, lowercase_of, str_eq, to_lowercase};

verus! {

/// Severity of a log entry, in the order Monolog uses.
#[derive(Clone, Copy, Debug, PartialEq, Eq, Structural)]
pub enum LogLevel {
    Debug,
    Info,
    Notice,
    Warning,
    Error,
    Critical,
    Alert,
    Emergency,
    Unknown,
}

/// The level whose lowercase name is exactly `s`; any other text is `Unknown`.
pub open spec fn level_named(s: Seq<char>) -> LogLevel {
    if s == "debug"@ {
        LogLevel::Debug
    } else if s == "info"@ {
        LogLevel::Info
    } else if s == "notice"@ {
        LogLevel::Notice
    } else if s == "warning"@ {
        LogLevel::Warning
    } else if s == "error"@ {
        LogLevel::Error
    } else if s == "critical"@ {
        LogLevel::Critical
    } else if s == "alert"@ {
        LogLevel::Alert
    } else if s == "emergency"@ {
        LogLevel::Emergency
    } else {
        LogLevel::Unknown
    }
}

/// The level that a level name denotes, ignoring letter case.
pub open spec fn level_from_name(s: Seq<char>) -> LogLevel {
    level_named(lowercase_of(s))
}

/// Display name of a level.
pub open spec fn level_display(l: LogLevel) -> Seq<char> {
    match l {
        LogLevel::Debug => "Debug"@,
        LogLevel::Info => "Info"@,
        LogLevel::Notice => "Notice"@,
        LogLevel::Warning => "Warning"@,
        LogLevel::Error => "Error"@,
        LogLevel::Critical => "Critical"@,
        LogLevel::Alert => "Alert"@,
        LogLevel::Emergency => "Emergency"@,
        LogLevel::Unknown => "Unknown"@,
    }
}

/// Position of a level in the severity order used by the level filter;
/// `Unknown` ranks with `Debug`.
pub open spec fn rank(l: LogLevel) -> u8 {
    match l {
        LogLevel::Debug => 0,
        LogLevel::Info => 1,
        LogLevel::Notice => 2,
        LogLevel::Warning => 3,
        LogLevel::Error => 4,
        LogLevel::Critical => 5,
        LogLevel::Alert => 6,
        LogLevel::Emergency => 7,
        LogLevel::Unknown => 0,
    }
}

/// The filter that follows `l` when the user cycles filters; `None` means "All".
pub open spec fn next_filter_of(l: LogLevel) -> Option<LogLevel> {
    match l {
        LogLevel::Debug => Some(LogLevel::Info),
        LogLevel::Info => Some(LogLevel::Notice),
        LogLevel::Notice => Some(LogLevel::Warning),
        LogLevel::Warning => Some(LogLevel::Error),
        LogLevel::Error => Some(LogLevel::Critical),
        LogLevel::Critical => None,
        _ => Some(LogLevel::Debug),
    }
}

/// The eight named levels, from least to most severe.
pub open spec fn all_levels() -> Seq<LogLevel> {
    seq![
        LogLevel::Debug,
        LogLevel::Info,
        LogLevel::Notice,
        LogLevel::Warning,
        LogLevel::Error,
        LogLevel::Critical,
        LogLevel::Alert,
        LogLevel::Emergency,
    ]
}

impl LogLevel {
    /// Parses a level name in any letter case.
    pub fn from_str(s: &str) -> (l: LogLevel)
        ensures
            l == level_from_name(s@),
            all_ascii(s@) ==> l == level_named(ascii_lower(s@)),
    {
        let lower = to_lowercase(s);
        Self::from_lowercase_name(lower.as_str())
    }

    /// Maps an already lowercased level name to its level.
    pub fn from_lowercase_name(lower: &str) -> (l: LogLevel)
        ensures
            l == level_named(lower@),
    {
        if str_eq(lower, "debug") {
            LogLevel::Debug
        } else if str_eq(lower, "info") {
            LogLevel::Info
        } else if str_eq(lower, "notice") {
            LogLevel::Notice
        } else if str_eq(lower, "warning") {
            LogLevel::Warning
        } else if str_eq(lower, "error") {
            LogLevel::Error
        } else if str_eq(lower, "critical") {
            LogLevel::Critical
        } else if str_eq(lower, "alert") {
            LogLevel::Alert
        } else if str_eq(lower, "emergency") {
            LogLevel::Emergency
        } else {
            LogLevel::Unknown
        }
    }

    /// Whether the level is `Error` or more severe.
    pub fn is_error(&self) -> (b: bool)
        ensures
            b == (*self == LogLevel::Error || *self == LogLevel::Critical || *self
                == LogLevel::Alert || *self == LogLevel::Emergency),
    {
        match self {
            LogLevel::Error | LogLevel::Critical | LogLevel::Alert | LogLevel::Emergency => true,
            _ => false,
        }
    }

    /// Display name for the level.
    pub fn name(&self) -> (s: &'static str)
        ensures
            s@ == level_display(*self),
    {
        proof {
            reveal_strlit("Debug");
            reveal_strlit("Info");
            reveal_strlit("Notice");
            reveal_strlit("Warning");
            reveal_strlit("Error");
            reveal_strlit("Critical");
            reveal_strlit("Alert");
            reveal_strlit("Emergency");
            reveal_strlit("Unknown");
        }
        match self {
            LogLevel::Debug => "Debug",
            LogLevel::Info => "Info",
            LogLevel::Notice => "Notice",
            LogLevel::Warning => "Warning",
            LogLevel::Error => "Error",
            LogLevel::Critical => "Critical",
            LogLevel::Alert => "Alert",
            LogLevel::Emergency => "Emergency",
            LogLevel::Unknown => "Unknown",
        }
    }

    /// All levels that the level filter offers, in severity order.
    pub fn all() -> (v: &'static [LogLevel])
        ensures
            v@ == all_levels(),
    {
        let v: &'static [LogLevel] = &[
            LogLevel::Debug,
            LogLevel::Info,
            LogLevel::Notice,
            LogLevel::Warning,
            LogLevel::Error,
            LogLevel::Critical,
            LogLevel::Alert,
            LogLevel::Emergency,
        ];
        assert(v@ =~= all_levels());
        v
    }

    /// The next level filter in the cycle; `None` returns to "All".
    pub fn next_filter(&self) -> (n: Option<LogLevel>)
        ensures
            n == next_filter_of(*self),
    {
        match self {
            LogLevel::Debug => Some(LogLevel::Info),
            LogLevel::Info => Some(LogLevel::Notice),
            LogLevel::Notice => Some(LogLevel::Warning),
            LogLevel::Warning => Some(LogLevel::Error),
            LogLevel::Error => Some(LogLevel::Critical),
            LogLevel::Critical => None,
            _ => Some(LogLevel::Debug),
        }
    }

    /// Position in the severity order used when filtering.
    pub fn rank(&self) -> (r: u8)
        ensures
            r == rank(*self),
    {
        match self {
            LogLevel::Debug => 0,
            LogLevel::Info => 1,
            LogLevel::Notice => 2,
            LogLevel::Warning => 3,
            LogLevel::Error => 4,
            LogLevel::Critical => 5,
            LogLevel::Alert => 6,
            LogLevel::Emergency => 7,
            LogLevel::Unknown => 0,
        }
    }
}


/// The filter order is the severity order: the rank rises strictly from each
/// named level to the next more severe one (Debug, Info, Notice, Warning,
/// Error, Critical, Alert, Emergency), and `Unknown` ranks with `Debug`.
pub proof fn law_rank_follows_severity(a: int, b: int)
    requires
        0 <= a < b < all_levels().len(),
    ensures
        rank(all_levels()[a]) < rank(all_levels()[b]),
        rank(LogLevel::Debug) < rank(LogLevel::Info) < rank(LogLevel::Notice) < rank(LogLevel::Warning) < rank(
            LogLevel::Error,
        ) < rank(LogLevel::Critical) < rank(LogLevel::Alert) < rank(LogLevel::Emergency),
        rank(LogLevel::Unknown) == rank(LogLevel::Debug),
{
}

/// Whether a text is one of the eight lowercase level names.
pub open spec fn is_level_name(s: Seq<char>) -> bool {
    s == "debug"@ || s == "info"@ || s == "notice"@ || s == "warning"@ || s == "error"@ || s == "critical"@
        || s == "alert"@ || s == "emergency"@
}

/// A level's name reads back as that level, whatever its letter case (the
/// names are ASCII, so `from_str` lowercases them letter by letter); a text
/// reads as `Unknown` exactly when its lowercase form is none of the eight
/// level names.
pub proof fn law_level_name_round_trip(l: LogLevel, s: Seq<char>)
    ensures
        all_ascii(level_display(l)),
        level_named(ascii_lower(level_display(l))) == l,
        level_named(ascii_lower(ascii_upper(level_display(l)))) == l,
        (level_named(s) == LogLevel::Unknown) <==> !is_level_name(s),
{
    reveal_strlit("Debug");
    reveal_strlit("Info");
    reveal_strlit("Notice");
    reveal_strlit("Warning");
    reveal_strlit("Error");
    reveal_strlit("Critical");
    reveal_strlit("Alert");
    reveal_strlit("Emergency");
    reveal_strlit("Unknown");
    reveal_strlit("debug");
    reveal_strlit("info");
    reveal_strlit("notice");
    reveal_strlit("warning");
    reveal_strlit("error");
    reveal_strlit("critical");
    reveal_strlit("alert");
    reveal_strlit("emergency");
    let d = level_display(l);
    let lower = ascii_lower(d);
    let upper_lower = ascii_lower(ascii_upper(d));
    match l {
        LogLevel::Debug => {
            assert(lower =~= "debug"@);
            assert(upper_lower =~= "debug"@);
            assert(level_named(lower) == LogLevel::Debug);
            assert(level_named(upper_lower) == LogLevel::Debug);
        },
        LogLevel::Info => {
            assert(lower =~= "info"@);
            assert(upper_lower =~= "info"@);
            assert(level_named(lower) == LogLevel::Info);
            assert(level_named(upper_lower) == LogLevel::Info);
        },
        LogLevel::Notice => {
            assert(lower =~= "notice"@);
            assert(upper_lower =~= "notice"@);
            assert(level_named(lower) == LogLevel::Notice);
            assert(level_named(upper_lower) == LogLevel::Notice);
        },
        LogLevel::Warning => {
            assert(lower =~= "warning"@);
            assert(upper_lower =~= "warning"@);
            assert(level_named(lower) == LogLevel::Warning);
            assert(level_named(upper_lower) == LogLevel::Warning);
        },
        LogLevel::Error => {
            assert(lower =~= "error"@);
            assert(upper_lower =~= "error"@);
            assert(lower[0] != "debug"@[0] && upper_lower[0] != "debug"@[0]);
            assert(level_named(lower) == LogLevel::Error);
            assert(level_named(upper_lower) == LogLevel::Error);
        },
        LogLevel::Critical => {
            assert(lower =~= "critical"@);
            assert(upper_lower =~= "critical"@);
            assert(level_named(lower) == LogLevel::Critical);
            assert(level_named(upper_lower) == LogLevel::Critical);
        },
        LogLevel::Alert => {
            assert(lower =~= "alert"@);
            assert(upper_lower =~= "alert"@);
            assert(lower[0] != "debug"@[0] && upper_lower[0] != "debug"@[0]);
            assert(lower[0] != "error"@[0] && upper_lower[0] != "error"@[0]);
            assert(level_named(lower) == LogLevel::Alert);
            assert(level_named(upper_lower) == LogLevel::Alert);
        },
        LogLevel::Emergency => {
            assert(lower =~= "emergency"@);
            assert(upper_lower =~= "emergency"@);
            assert(level_named(lower) == LogLevel::Emergency);
            assert(level_named(upper_lower) == LogLevel::Emergency);
        },
        LogLevel::Unknown => {
            assert(lower[0] == 'u');
            assert(upper_lower[0] == 'u');
            assert(lower.len() == 7 && upper_lower.len() == 7);
            assert(lower != "warning"@ && upper_lower != "warning"@ && "warning"@[0] == 'w');
            assert(level_named(lower) == LogLevel::Unknown);
            assert(level_named(upper_lower) == LogLevel::Unknown);
        },
    }
}

} // verus!
