//! The log pane's buffer.

use vstd::prelude::*;

verus! {

/// How many entries the buffer keeps.
pub const MAX_LOG_ENTRIES: usize = 1000;

/// How grave a log entry is.
#[derive(Debug, Clone, Copy, PartialEq, Eq, Structural)]
pub enum Level {
    Error,
    Warn,
    Info,
    Debug,
    Trace,
}

/// The colour in which a level is shown.
#[derive(Debug, Clone, Copy, PartialEq, Eq, Structural)]
pub enum LevelColor {
    Red,
    Yellow,
    Blue,
    DarkGray,
}

/// Maps a log level to the colour in which it is shown.
pub fn level_color(level: Level) -> (r: LevelColor)
    ensures
        r == match level {
            Level::Error => LevelColor::Red,
            Level::Warn => LevelColor::Yellow,
            Level::Info => LevelColor::Blue,
            Level::Debug => LevelColor::DarkGray,
            Level::Trace => LevelColor::DarkGray,
        },
{
    match level {
        Level::Error => LevelColor::Red,
        Level::Warn => LevelColor::Yellow,
        Level::Info => LevelColor::Blue,
        Level::Debug => LevelColor::DarkGray,
        Level::Trace => LevelColor::DarkGray,
    }
}

/// Whether an entry of `level` passes a filter that lets `most` and
/// everything graver through.
pub fn enabled(level: Level, most: Level) -> (r: bool)
    ensures
        r == (gravity(level) <= gravity(most)),
{
    rank(level) <= rank(most)
}

/// The place of a level from the gravest on.
pub open spec fn gravity(level: Level) -> int {
    match level {
        Level::Error => 1,
        Level::Warn => 2,
        Level::Info => 3,
        Level::Debug => 4,
        Level::Trace => 5,
    }
}

fn rank(level: Level) -> (r: u8)
    ensures
        r == gravity(level),
{
    match level {
        Level::Error => 1,
        Level::Warn => 2,
        Level::Info => 3,
        Level::Debug => 4,
        Level::Trace => 5,
    }
}

/// One line of the log.
#[derive(Debug)]
pub struct LogEntry {
    pub level: Level,
    pub target: String,
    pub message: String,
    /// When the entry was made, in milliseconds since the buffer started.
    pub timestamp: u64,
}

impl Clone for LogEntry {
    fn clone(&self) -> (r: Self)
        ensures
            r.level == self.level,
            r.target@ == self.target@,
            r.message@ == self.message@,
            r.timestamp == self.timestamp,
    {
        LogEntry {
            level: self.level,
            target: self.target.clone(),
            message: self.message.clone(),
            timestamp: self.timestamp,
        }
    }
}

/// The entries after one more was pushed: the oldest goes where the buffer
/// was full.
pub open spec fn pushed(entries: Seq<LogEntry>, entry: LogEntry) -> Seq<LogEntry> {
    if entries.len() >= MAX_LOG_ENTRIES {
        entries.skip(1).push(entry)
    } else {
        entries.push(entry)
    }
}

/// Ring buffer of log entries: the newest thousand.
#[derive(Debug)]
pub struct LogBuffer {
    pub entries: Vec<LogEntry>,
}

impl LogBuffer {
    /// An empty buffer.
    pub fn new() -> (r: Self)
        ensures
            r.entries@.len() == 0,
    {
        LogBuffer { entries: Vec::new() }
    }

    /// Appends an entry, dropping the oldest where the buffer is full.
    pub fn push(&mut self, entry: LogEntry)
        ensures
            final(self).entries@ == pushed(old(self).entries@, entry),
    {
        if self.entries.len() >= MAX_LOG_ENTRIES {
            self.entries.remove(0);
            assert(self.entries@ =~= old(self).entries@.skip(1));
        }
        self.entries.push(entry);
    }

    /// How many entries the buffer holds.
    pub fn len(&self) -> (r: usize)
        ensures
            r == self.entries@.len(),
    {
        self.entries.len()
    }

    /// Whether the buffer holds nothing.
    pub fn is_empty(&self) -> (r: bool)
        ensures
            r == (self.entries@.len() == 0),
    {
        self.entries.len() == 0
    }
}

impl Default for LogBuffer {
    fn default() -> (r: Self)
        ensures
            r.entries@.len() == 0,
    {
        LogBuffer::new()
    }
}

} // verus!
