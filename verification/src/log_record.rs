//! Log records carried through the command queue, with the library's own
//! severity scale.

use vstd::prelude::*;

verus! {

/// Log severity, most severe first.
#[derive(Clone, Copy, PartialEq, Eq, Structural, Debug)]
pub enum LogLevel {
    Error,
    Warn,
    Info,
    Debug,
    Trace,
}

impl LogLevel {
    /// Position on the severity scale; smaller is more severe.
    pub open spec fn spec_rank(self) -> int {
        match self {
            LogLevel::Error => 0,
            LogLevel::Warn => 1,
            LogLevel::Info => 2,
            LogLevel::Debug => 3,
            LogLevel::Trace => 4,
        }
    }

    pub fn rank(&self) -> (r: u8)
        ensures
            r == self.spec_rank(),
    {
        match self {
            LogLevel::Error => 0,
            LogLevel::Warn => 1,
            LogLevel::Info => 2,
            LogLevel::Debug => 3,
            LogLevel::Trace => 4,
        }
    }

    /// `self` is at most as verbose as `limit`.
    pub fn le(&self, limit: &LogLevel) -> (r: bool)
        ensures
            r == (self.spec_rank() <= limit.spec_rank()),
    {
        self.rank() <= limit.rank()
    }
}

/// The mathematical content of a `LogRecord`.
pub ghost struct LogRecordModel {
    pub thread_id: u32,
    pub level: LogLevel,
    pub time: i64,
    pub msg_str: Seq<char>,
    pub module: Option<Seq<char>>,
}

/// One log message from an instrumented thread.
pub struct LogRecord {
    pub thread_id: u32,
    pub level: LogLevel,
    pub time: i64,
    pub msg_str: String,
    pub module: Option<String>,
}

impl View for LogRecord {
    type V = LogRecordModel;

    open spec fn view(&self) -> LogRecordModel {
        LogRecordModel {
            thread_id: self.thread_id,
            level: self.level,
            time: self.time,
            msg_str: self.msg_str@,
            module: match self.module {
                Some(ref m) => Some(m@),
                None => None,
            },
        }
    }
}

impl LogRecord {
    /// Stamps the record with the current wall clock; the clock's reading is
    /// unconstrained.
    pub fn new(thread_id: u32, level: LogLevel, msg_str: String, module: Option<String>) -> (r:
        LogRecord)
        ensures
            r@.thread_id == thread_id,
            r@.level == level,
            r@.msg_str == msg_str@,
            r@.module == match module {
                Some(m) => Some(m@),
                None => None::<Seq<char>>,
            },
    {
        let time = crate::runtime::now_timestamp_nanos();
        LogRecord { thread_id, level, time, msg_str, module }
    }

    pub fn thread_id(&self) -> (r: u32)
        ensures
            r == self@.thread_id,
    {
        self.thread_id
    }

    pub fn level(&self) -> (r: LogLevel)
        ensures
            r == self@.level,
    {
        self.level
    }

    pub fn time(&self) -> (r: i64)
        ensures
            r == self@.time,
    {
        self.time
    }

    pub fn msg_str(&self) -> (r: &str)
        ensures
            r@ == self@.msg_str,
    {
        self.msg_str.as_str()
    }

    pub fn module(&self) -> (r: Option<&str>)
        ensures
            match r {
                Some(m) => self@.module == Some(m@),
                None => self@.module is None,
            },
    {
        match &self.module {
            Some(m) => Some(m.as_str()),
            None => None,
        }
    }
}

} // verus!
