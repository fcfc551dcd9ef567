//! Kernel log levels and the text that frames each log line.

use vstd::prelude::*;

verus! {

/// Severity of a log message.
#[derive(Debug, Clone, Copy, PartialEq, Eq, Structural)]
pub enum LogLevel {
    Debug,
    Info,
    Warning,
    Error,
    Fatal,
}

impl LogLevel {
    /// The colour escape and label that start a log line of this level.
    pub open spec fn spec_prefix(self) -> Seq<char> {
        match self {
            LogLevel::Debug => "\x1b[34mDEBUG "@,
            LogLevel::Info => "\x1b[32mINFO  "@,
            LogLevel::Warning => "\x1b[33mWARN  "@,
            LogLevel::Error => "\x1b[31mERROR "@,
            LogLevel::Fatal => "\x1b[31mFATAL "@,
        }
    }

    /// The colour escape and label that start a log line of this level.
    pub fn prefix(&self) -> (r: &'static str)
        ensures
            r@ == self.spec_prefix(),
    {
        match self {
            LogLevel::Debug => "\x1b[34mDEBUG ",
            LogLevel::Info => "\x1b[32mINFO  ",
            LogLevel::Warning => "\x1b[33mWARN  ",
            LogLevel::Error => "\x1b[31mERROR ",
            LogLevel::Fatal => "\x1b[31mFATAL ",
        }
    }
}

/// The text that ends every log line: reset the colour, then a newline.
pub fn log_suffix() -> (r: &'static str)
    ensures
        r@ == "\x1b[0m\n"@,
{
    "\x1b[0m\n"
}

/// The log sink in effect before a console is found: it drops the text.
pub fn dummy_log_write(_msg: &str) {
}

} // verus!
