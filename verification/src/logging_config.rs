//! Console-logging configuration: severity limit, time format, and the
//! module / body substring filters applied by the event loop.

use crate::log_record::LogLevel;
use vstd::prelude::*;

verus! {

/// The mathematical content of a `LoggingConfig`.
pub ghost struct LoggingModel {
    pub level: LogLevel,
    pub time_format: Seq<char>,
    pub mod_filter: Seq<Seq<char>>,
    pub body_filter: Seq<Seq<char>>,
}

/// Logging configuration.
pub struct LoggingConfig {
    pub level: LogLevel,
    pub time_format: String,
    pub mod_filter: Vec<String>,
    pub body_filter: Vec<String>,
}

impl View for LoggingConfig {
    type V = LoggingModel;

    open spec fn view(&self) -> LoggingModel {
        LoggingModel {
            level: self.level,
            time_format: self.time_format@,
            mod_filter: Seq::new(self.mod_filter@.len(), |i: int| self.mod_filter@[i]@),
            body_filter: Seq::new(self.body_filter@.len(), |i: int| self.body_filter@[i]@),
        }
    }
}

impl LoggingConfig {
    pub fn new(
        level: LogLevel,
        time_format: String,
        mod_filter: Vec<String>,
        body_filter: Vec<String>,
    ) -> (r: LoggingConfig)
        ensures
            r@.level == level,
            r@.time_format == time_format@,
            r@.mod_filter == Seq::new(mod_filter@.len(), |i: int| mod_filter@[i]@),
            r@.body_filter == Seq::new(body_filter@.len(), |i: int| body_filter@[i]@),
    {
        LoggingConfig { level, time_format, mod_filter, body_filter }
    }

    pub fn level(&self) -> (r: LogLevel)
        ensures
            r == self@.level,
    {
        self.level
    }

    pub fn time_format(&self) -> (r: &str)
        ensures
            r@ == self@.time_format,
    {
        self.time_format.as_str()
    }

    pub fn mod_filter(&self) -> (r: &Vec<String>)
        ensures
            Seq::new(r@.len(), |i: int| r@[i]@) == self@.mod_filter,
    {
        &self.mod_filter
    }

    pub fn body_filter(&self) -> (r: &Vec<String>)
        ensures
            Seq::new(r@.len(), |i: int| r@[i]@) == self@.body_filter,
    {
        &self.body_filter
    }
}

impl Default for LoggingConfig {
    /// Everything at `Trace` and above, a second-resolution time format, and
    /// the chatty HTTP modules filtered out.
    fn default() -> (r: LoggingConfig)
        ensures
            r@.level == LogLevel::Trace,
            r@.time_format == "%Y-%m-%d %H:%M:%S%z"@,
            r@.mod_filter.len() == 2,
            r@.mod_filter[0] == "hyper"@,
            r@.mod_filter[1] == "mime"@,
            r@.body_filter.len() == 0,
    {
        let mut mod_filter: Vec<String> = Vec::new();
        mod_filter.push("hyper".to_owned());
        mod_filter.push("mime".to_owned());
        let r = LoggingConfig {
            level: LogLevel::Trace,
            time_format: "%Y-%m-%d %H:%M:%S%z".to_owned(),
            mod_filter,
            body_filter: Vec::new(),
        };
        r
    }
}

} // verus!
