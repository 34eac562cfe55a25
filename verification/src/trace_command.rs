//! The closed set of commands consumed by the event loop. Every producer
//! thread turns its instrumentation callbacks into these values; the single
//! consumer applies them in arrival order.

use crate::log_record::LogRecord;
use crate::span::NewSpanData;
use crate::tags::TagMap;
use vstd::prelude::*;

verus! {

/// One command for the event loop. Each carries the send-time clock reading
/// in nanoseconds.
pub enum TraceCommand {
    /// Render a log line.
    Log(LogRecord),
    /// Open a span.
    NewSpan(i64, NewSpanData),
    /// Mark a span as the active nesting context for its trace; the `u32` is
    /// the issuing thread.
    Enter(i64, u32, u64),
    /// Leave a nesting context.
    Exit(i64, u64),
    /// Close a span; the clock reading gives its end time.
    CloseSpan(i64, u64),
    /// Flush and/or tag: the issuing thread, the event's tags, and the
    /// trace end time in nanoseconds.
    Event(i64, u32, TagMap, i64),
}

} // verus!
