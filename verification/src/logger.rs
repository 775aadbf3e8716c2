//! Logging configuration.
//!
//! The library only decides what to log where; the sinks, the clock and
//! the files belong to the host, which reads this configuration and runs
//! the logger.

use vstd::prelude::*;

use crate::text::lower_of;
use crate::text::lowercase;
use crate::text::str_eq;

verus! {

/// How much to log.
#[derive(Debug, Clone, Copy, PartialEq, Eq, Structural)]
pub enum LogLevel {
    Off,
    Error,
    Warn,
    Info,
    Debug,
    Trace,
}

/// The level a lowercased name stands for; `warn` and `warning` are the
/// same level.
pub open spec fn spec_level_from(l: Seq<char>) -> Option<LogLevel> {
    if l == "off"@ {
        Some(LogLevel::Off)
    } else if l == "error"@ {
        Some(LogLevel::Error)
    } else if l == "warn"@ || l == "warning"@ {
        Some(LogLevel::Warn)
    } else if l == "info"@ {
        Some(LogLevel::Info)
    } else if l == "debug"@ {
        Some(LogLevel::Debug)
    } else if l == "trace"@ {
        Some(LogLevel::Trace)
    } else {
        None
    }
}

#[verifier::external_type_specification]
#[verifier::external_body]
pub struct ExLevelFilter(log::LevelFilter);

impl LogLevel {
    /// Reads a level name, case-insensitively.
    pub fn from_str(s: &str) -> (r: Option<LogLevel>)
        ensures
            r == spec_level_from(lower_of(s@)),
    {
        let l = lowercase(s);
        if str_eq(l.as_str(), "off") {
            Some(LogLevel::Off)
        } else if str_eq(l.as_str(), "error") {
            Some(LogLevel::Error)
        } else if str_eq(l.as_str(), "warn") || str_eq(l.as_str(), "warning") {
            Some(LogLevel::Warn)
        } else if str_eq(l.as_str(), "info") {
            Some(LogLevel::Info)
        } else if str_eq(l.as_str(), "debug") {
            Some(LogLevel::Debug)
        } else if str_eq(l.as_str(), "trace") {
            Some(LogLevel::Trace)
        } else {
            None
        }
    }

    /// Relies on `log::LevelFilter`: each level maps to the filter of the
    /// same name.
    #[verifier::external_body]
    pub fn to_level_filter(&self) -> log::LevelFilter {
        match self {
            LogLevel::Off => log::LevelFilter::Off,
            LogLevel::Error => log::LevelFilter::Error,
            LogLevel::Warn => log::LevelFilter::Warn,
            LogLevel::Info => log::LevelFilter::Info,
            LogLevel::Debug => log::LevelFilter::Debug,
            LogLevel::Trace => log::LevelFilter::Trace,
        }
    }
}

/// Where log lines go.
#[derive(Debug, Clone)]
pub enum LogOutput {
    /// Standard output only.
    Stdout,
    /// This file only.
    File(String),
    /// Standard output and this file.
    Both(String),
    /// This file, rotated at a size, keeping some backups.
    RotatingFile { path: String, max_size: u64, max_backups: usize },
}

/// The logging settings the host honours.
#[derive(Debug, Clone)]
pub struct LogConfig {
    pub level: LogLevel,
    pub show_timestamp: bool,
    pub show_module: bool,
    pub use_color: bool,
    pub output: LogOutput,
}

impl Default for LogConfig {
    /// Info to standard output, with timestamps, module paths and colour.
    fn default() -> (c: LogConfig)
        ensures
            c.level == LogLevel::Info,
            c.show_timestamp,
            c.show_module,
            c.use_color,
            c.output is Stdout,
    {
        LogConfig {
            level: LogLevel::Info,
            show_timestamp: true,
            show_module: true,
            use_color: true,
            output: LogOutput::Stdout,
        }
    }
}

impl LogConfig {
    /// The default configuration at this level.
    pub fn new(level: LogLevel) -> (c: LogConfig)
        ensures
            c.level == level,
            c.show_timestamp,
            c.show_module,
            c.use_color,
            c.output is Stdout,
    {
        LogConfig {
            level,
            show_timestamp: true,
            show_module: true,
            use_color: true,
            output: LogOutput::Stdout,
        }
    }

    pub fn with_level(self, level: LogLevel) -> (c: LogConfig)
        ensures
            c == (LogConfig { level, ..self }),
    {
        LogConfig { level, ..self }
    }

    pub fn with_timestamp(self, show: bool) -> (c: LogConfig)
        ensures
            c == (LogConfig { show_timestamp: show, ..self }),
    {
        LogConfig { show_timestamp: show, ..self }
    }

    pub fn with_module(self, show: bool) -> (c: LogConfig)
        ensures
            c == (LogConfig { show_module: show, ..self }),
    {
        LogConfig { show_module: show, ..self }
    }

    pub fn with_color(self, use_color: bool) -> (c: LogConfig)
        ensures
            c == (LogConfig { use_color, ..self }),
    {
        LogConfig { use_color, ..self }
    }

    /// Sends the log to this file only.
    pub fn with_file(self, path: &str) -> (c: LogConfig)
        ensures
            c.output matches LogOutput::File(p) && p@ == path@,
            c.level == self.level,
            c.show_timestamp == self.show_timestamp,
            c.show_module == self.show_module,
            c.use_color == self.use_color,
    {
        LogConfig { output: LogOutput::File(path.to_owned()), ..self }
    }

    /// Sends the log to standard output and this file.
    pub fn with_both(self, path: &str) -> (c: LogConfig)
        ensures
            c.output matches LogOutput::Both(p) && p@ == path@,
            c.level == self.level,
            c.show_timestamp == self.show_timestamp,
            c.show_module == self.show_module,
            c.use_color == self.use_color,
    {
        LogConfig { output: LogOutput::Both(path.to_owned()), ..self }
    }

    /// Sends the log to this file, rotated at `max_size` bytes, keeping
    /// `max_backups` old files.
    pub fn with_rotating_file(self, path: &str, max_size: u64, max_backups: usize) -> (c:
        LogConfig)
        ensures
            c.output matches LogOutput::RotatingFile { path: p, max_size: ms, max_backups: mb }
                && p@ == path@ && ms == max_size && mb == max_backups,
            c.level == self.level,
            c.show_timestamp == self.show_timestamp,
            c.show_module == self.show_module,
            c.use_color == self.use_color,
    {
        LogConfig {
            output: LogOutput::RotatingFile { path: path.to_owned(), max_size, max_backups },
            ..self
        }
    }
}

} // verus!
