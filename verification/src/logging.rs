//! Structured logging: which messages pass a logger's level, and how a log
//! line reads. Writing the line out is the caller's part.

use crate::text::{decimal, push_decimal};
use crate::time::unix_timestamp;
use vstd::prelude::*;
use vstd::string::StringExecFns;

verus! {

/// Log levels for structured logging, from the most verbose up.
#[derive(Debug, Clone, Copy, PartialEq, Eq, PartialOrd, Ord, Structural)]
pub enum LogLevel {
    /// Trace level - very verbose debugging
    Trace,
    /// Debug level - debugging information
    Debug,
    /// Info level - general information
    Info,
    /// Warn level - warning messages
    Warn,
    /// Error level - error messages
    Error,
}

impl LogLevel {
    /// The rank of the level: 0 for `Trace` up to 4 for `Error`.
    pub open spec fn rank(self) -> nat {
        match self {
            LogLevel::Trace => 0,
            LogLevel::Debug => 1,
            LogLevel::Info => 2,
            LogLevel::Warn => 3,
            LogLevel::Error => 4,
        }
    }

    /// The name of the level as it stands in a log line.
    pub open spec fn label(self) -> Seq<char> {
        match self {
            LogLevel::Trace => "TRACE"@,
            LogLevel::Debug => "DEBUG"@,
            LogLevel::Info => "INFO"@,
            LogLevel::Warn => "WARN"@,
            LogLevel::Error => "ERROR"@,
        }
    }

    /// The rank of the level.
    pub fn severity(&self) -> (rank: u8)
        ensures
            rank == self.rank(),
    {
        match self {
            LogLevel::Trace => 0,
            LogLevel::Debug => 1,
            LogLevel::Info => 2,
            LogLevel::Warn => 3,
            LogLevel::Error => 4,
        }
    }

    /// The name of the level in capitals.
    pub fn name(&self) -> (name: &'static str)
        ensures
            name@ == self.label(),
    {
        match self {
            LogLevel::Trace => "TRACE",
            LogLevel::Debug => "DEBUG",
            LogLevel::Info => "INFO",
            LogLevel::Warn => "WARN",
            LogLevel::Error => "ERROR",
        }
    }
}

/// How a log line reads: the timestamp in brackets, the level, the module
/// in brackets, the message.
pub open spec fn log_line(timestamp: u64, level: LogLevel, module: Seq<char>, message: Seq<char>) -> Seq<
    char,
> {
    "["@ + decimal(timestamp as nat) + "] "@ + level.label() + " ["@ + module + "] "@ + message
}

/// Simple structured logger
#[derive(Debug)]
pub struct Logger {
    level: LogLevel,
    module: String,
}

impl Logger {
    /// The minimum level of the messages that pass.
    pub closed spec fn level(&self) -> LogLevel {
        self.level
    }

    /// The module that the logger speaks for.
    pub closed spec fn module(&self) -> Seq<char> {
        self.module@
    }

    /// Create a new logger for a module, at level `Info`.
    pub fn new(module: &str) -> (logger: Self)
        ensures
            logger.level() == LogLevel::Info,
            logger.module() == module@,
    {
        Logger { level: LogLevel::Info, module: module.to_owned() }
    }

    /// Set the minimum log level
    pub fn set_level(&mut self, level: LogLevel)
        ensures
            final(self).level() == level,
            final(self).module() == old(self).module(),
    {
        self.level = level;
    }

    /// Whether a message at `level` passes.
    pub fn enabled(&self, level: LogLevel) -> (passes: bool)
        ensures
            passes == (level.rank() >= self.level().rank()),
    {
        level.severity() >= self.level.severity()
    }

    /// The line for a message at the given level and time.
    pub fn line(&self, timestamp: u64, level: LogLevel, message: &str) -> (line: String)
        ensures
            line@ == log_line(timestamp, level, self.module(), message@),
    {
        let mut line = "[".to_owned();
        push_decimal(&mut line, timestamp);
        line.append("] ");
        line.append(level.name());
        line.append(" [");
        line.append(self.module.as_str());
        line.append("] ");
        line.append(message);
        line
    }

    /// Log a message at the given level: its line, stamped with the
    /// current time, if the level passes, and nothing if not.
    pub fn log(&self, level: LogLevel, message: &str) -> (line: Option<String>)
        ensures
            match line {
                Some(text) => level.rank() >= self.level().rank() && exists|timestamp: u64|
                    text@ == #[trigger] log_line(timestamp, level, self.module(), message@),
                None => level.rank() < self.level().rank(),
            },
    {
        if self.enabled(level) {
            let timestamp = unix_timestamp();
            Some(self.line(timestamp, level, message))
        } else {
            None
        }
    }

    /// Log a trace message
    pub fn trace(&self, message: &str) -> (line: Option<String>)
        ensures
            match line {
                Some(text) => self.level() == LogLevel::Trace && exists|timestamp: u64|
                    text@ == #[trigger] log_line(timestamp, LogLevel::Trace, self.module(), message@),
                None => self.level() != LogLevel::Trace,
            },
    {
        self.log(LogLevel::Trace, message)
    }

    /// Log a debug message
    pub fn debug(&self, message: &str) -> (line: Option<String>)
        ensures
            match line {
                Some(text) => self.level().rank() <= 1 && exists|timestamp: u64|
                    text@ == #[trigger] log_line(timestamp, LogLevel::Debug, self.module(), message@),
                None => self.level().rank() > 1,
            },
    {
        self.log(LogLevel::Debug, message)
    }

    /// Log an info message
    pub fn info(&self, message: &str) -> (line: Option<String>)
        ensures
            match line {
                Some(text) => self.level().rank() <= 2 && exists|timestamp: u64|
                    text@ == #[trigger] log_line(timestamp, LogLevel::Info, self.module(), message@),
                None => self.level().rank() > 2,
            },
    {
        self.log(LogLevel::Info, message)
    }

    /// Log a warning message
    pub fn warn(&self, message: &str) -> (line: Option<String>)
        ensures
            match line {
                Some(text) => self.level().rank() <= 3 && exists|timestamp: u64|
                    text@ == #[trigger] log_line(timestamp, LogLevel::Warn, self.module(), message@),
                None => self.level().rank() > 3,
            },
    {
        self.log(LogLevel::Warn, message)
    }

    /// Log an error message: it passes at every level.
    pub fn error(&self, message: &str) -> (line: Option<String>)
        ensures
            line matches Some(text) && exists|timestamp: u64|
                text@ == #[trigger] log_line(timestamp, LogLevel::Error, self.module(), message@),
    {
        self.log(LogLevel::Error, message)
    }
}

} // verus!
