//! Construction options for the pipeline, and the severity filter.
//!
//! The options are plain values — ring capacity, target path, minimum
//! severity, header lines written once at file open. Opening the file and
//! spawning the worker are the unverified shell's business; it reads these
//! fields and checks `enabled` before formatting a record.

use vstd::prelude::*;

verus! {

/// Severity filter: `Off` admits nothing, `Trace` everything.
#[derive(Clone, Copy, Debug, PartialEq, Eq, Structural)]
pub enum Level {
    Off,
    Error,
    Warn,
    Info,
    Debug,
    Trace,
}

/// Rank of a severity filter: higher admits more.
pub open spec fn severity(level: Level) -> int {
    match level {
        Level::Off => 0,
        Level::Error => 1,
        Level::Warn => 2,
        Level::Info => 3,
        Level::Debug => 4,
        Level::Trace => 5,
    }
}

/// The rank of `level` as a number.
fn rank(level: Level) -> (r: u8)
    ensures
        r as int == severity(level),
{
    match level {
        Level::Off => 0,
        Level::Error => 1,
        Level::Warn => 2,
        Level::Info => 3,
        Level::Debug => 4,
        Level::Trace => 5,
    }
}

/// Whether a record of severity `record_level` passes the filter `level`:
/// exactly when its rank does not exceed the filter's.
pub fn enabled(level: Level, record_level: Level) -> (r: bool)
    ensures
        r == (severity(record_level) <= severity(level)),
{
    rank(record_level) <= rank(level)
}

/// Construction options: queue capacity, target path, minimum severity and
/// header lines, each with the original default.
pub struct LogBuilder {
    /// Requested queue capacity.
    pub capacity: usize,
    /// Minimum severity to accept.
    pub level: Level,
    /// Where the sink file lives.
    pub path: String,
    /// Lines written once, before any message.
    pub header: Vec<String>,
}

impl LogBuilder {
    /// The default options: capacity 2048, severity `Info`, the file
    /// `./current.log` beside the working directory, and no header.
    pub fn new() -> (r: LogBuilder)
        ensures
            r.capacity == 2048,
            r.level is Info,
            r.path@ == "./current.log"@,
            r.header@ == Seq::<String>::empty(),
    {
        let b = LogBuilder {
            capacity: 2048,
            level: Level::Info,
            path: "./current.log".to_owned(),
            header: Vec::new(),
        };
        proof {
            assert(b.header@ =~= Seq::<String>::empty());
        }
        b
    }

    /// Requests a queue capacity.
    pub fn capacity(&mut self, capacity: usize)
        ensures
            *final(self) == (LogBuilder { capacity, ..*old(self) }),
    {
        self.capacity = capacity;
    }

    /// Chooses the sink file.
    pub fn file(&mut self, path: String)
        ensures
            *final(self) == (LogBuilder { path, ..*old(self) }),
    {
        self.path = path;
    }

    /// Sets the minimum severity to accept.
    pub fn max_log_level(&mut self, level: Level)
        ensures
            *final(self) == (LogBuilder { level, ..*old(self) }),
    {
        self.level = level;
    }

    /// Sets the header lines, written once before any message.
    pub fn header(&mut self, header: Vec<String>)
        ensures
            *final(self) == (LogBuilder { header, ..*old(self) }),
    {
        self.header = header;
    }
}

impl Default for LogBuilder {
    /// Same options as `new`.
    fn default() -> (r: LogBuilder)
        ensures
            r.capacity == 2048,
            r.level is Info,
            r.path@ == "./current.log"@,
            r.header@ == Seq::<String>::empty(),
    {
        LogBuilder::new()
    }
}

} // verus!
