//! The stream of log messages: levels, filters and the fields of a message.
use crate::text;
use vstd::prelude::*;

verus! {

/// How severe a message is, or how strict a filter is.
#[derive(Clone, Copy, Debug, PartialEq, Eq, PartialOrd, Ord, Structural)]
pub enum LogLevel {
    Debug,
    Info,
    Warning,
    Error,
    Silent,
}

/// The level of an event.
#[derive(Clone, Copy, Debug, PartialEq, Eq, Structural)]
pub enum EventLevel {
    Trace,
    Debug,
    Info,
    Warn,
    Error,
}

impl LogLevel {
    /// How the level is written.
    pub open spec fn word(self) -> Seq<char> {
        match self {
            LogLevel::Debug => "debug"@,
            LogLevel::Info => "info"@,
            LogLevel::Warning => "warning"@,
            LogLevel::Error => "error"@,
            LogLevel::Silent => "silent"@,
        }
    }

    /// How severe the level is.
    pub open spec fn rank(self) -> int {
        match self {
            LogLevel::Debug => 0,
            LogLevel::Info => 1,
            LogLevel::Warning => 2,
            LogLevel::Error => 3,
            LogLevel::Silent => 4,
        }
    }

    /// How the level is written.
    pub fn as_str(self) -> (out: &'static str)
        ensures
            out@ == self.word(),
    {
        match self {
            LogLevel::Debug => "debug",
            LogLevel::Info => "info",
            LogLevel::Warning => "warning",
            LogLevel::Error => "error",
            LogLevel::Silent => "silent",
        }
    }

    /// The level of an event; the finest two become one.
    pub fn of_event(level: EventLevel) -> (out: LogLevel)
        ensures
            out == (match level {
                EventLevel::Trace | EventLevel::Debug => LogLevel::Debug,
                EventLevel::Info => LogLevel::Info,
                EventLevel::Warn => LogLevel::Warning,
                EventLevel::Error => LogLevel::Error,
            }),
    {
        match level {
            EventLevel::Trace | EventLevel::Debug => LogLevel::Debug,
            EventLevel::Info => LogLevel::Info,
            EventLevel::Warn => LogLevel::Warning,
            EventLevel::Error => LogLevel::Error,
        }
    }

    fn severity(self) -> (n: u8)
        ensures
            n == self.rank(),
    {
        match self {
            LogLevel::Debug => 0,
            LogLevel::Info => 1,
            LogLevel::Warning => 2,
            LogLevel::Error => 3,
            LogLevel::Silent => 4,
        }
    }

    /// Whether a message of this level passes a filter: it is at least as
    /// severe.
    pub fn passes(self, filter: LogLevel) -> (b: bool)
        ensures
            b == (self.rank() >= filter.rank()),
    {
        self.severity() >= filter.severity()
    }
}

/// The level that a word means; case does not count, and a word that means
/// none means [`LogLevel::Info`].
pub open spec fn level_of(s: Seq<char>) -> LogLevel {
    let w = text::ascii_lower(s);
    if w == "debug"@ {
        LogLevel::Debug
    } else if w == "warning"@ || w == "warn"@ {
        LogLevel::Warning
    } else if w == "error"@ {
        LogLevel::Error
    } else if w == "silent"@ {
        LogLevel::Silent
    } else {
        LogLevel::Info
    }
}

/// The level that a word means.
pub fn parse_log_level(s: &str) -> (level: LogLevel)
    ensures
        level == level_of(s@),
{
    let w = text::to_ascii_lowercase(s);
    let w = w.as_str();
    if text::same(w, "debug") {
        LogLevel::Debug
    } else if text::same(w, "warning") || text::same(w, "warn") {
        LogLevel::Warning
    } else if text::same(w, "error") {
        LogLevel::Error
    } else if text::same(w, "silent") {
        LogLevel::Silent
    } else {
        LogLevel::Info
    }
}

/// A level is read back from how it is written.
pub proof fn law_level_round_trip(level: LogLevel)
    ensures
        level_of(level.word()) == level,
{
    reveal_strlit("debug");
    reveal_strlit("info");
    reveal_strlit("warning");
    reveal_strlit("warn");
    reveal_strlit("error");
    reveal_strlit("silent");
    let w = level.word();
    assert(text::ascii_lower(w) =~= w);
    if level is Warning {
        assert("warning"@.len() != "debug"@.len());
    }
    if level is Error {
        assert("error"@[0] != "debug"@[0]);
        assert("error"@.len() != "warning"@.len());
    }
    if level is Silent {
        assert("silent"@.len() != "debug"@.len());
    }
    if level is Info {
        assert("info"@[0] != "warn"@[0]);
        assert("info"@.len() != "debug"@.len());
    }
}

/// No message of an event passes the strictest filter.
pub proof fn law_silent_is_silent(level: LogLevel)
    requires
        !(level is Silent),
    ensures
        level.rank() < LogLevel::Silent.rank(),
{
}

/// A log message.
#[derive(Debug)]
pub struct LogMessage {
    pub level: LogLevel,
    pub payload: String,
    /// When it was written: nanoseconds since the start of 1970.
    pub unix_nanos: i128,
}

/// A moment, as the internet writes it.
pub uninterp spec fn internet_time(unix_nanos: i128) -> Option<Seq<char>>;

/// `time`'s `OffsetDateTime::from_unix_timestamp_nanos` and `format` with
/// `Rfc3339`; nothing for a moment that cannot be written so. How it is
/// written is not stated here.
#[verifier::external_body]
fn format_time(unix_nanos: i128) -> (out: Option<String>)
    ensures
        text::opt_text(out) == internet_time(unix_nanos),
{
    let at = time::OffsetDateTime::from_unix_timestamp_nanos(unix_nanos).ok()?;
    at.format(&time::format_description::well_known::Rfc3339).ok()
}

/// The fields of a message, as they are sent.
#[derive(Debug)]
pub struct LogFields {
    pub kind: &'static str,
    pub payload: String,
    pub time: String,
}

impl LogMessage {
    /// The fields of the message. A moment that cannot be written is left
    /// empty.
    pub fn fields(&self) -> (f: LogFields)
        ensures
            f.kind@ == self.level.word(),
            f.payload@ == self.payload@,
            f.time@ == (match internet_time(self.unix_nanos) {
                Some(t) => t,
                None => Seq::empty(),
            }),
    {
        let time = match format_time(self.unix_nanos) {
            Some(t) => t,
            None => String::new(),
        };
        LogFields { kind: self.level.as_str(), payload: self.payload.as_str().to_owned(), time }
    }
}

} // verus!
