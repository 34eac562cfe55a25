//! In-process core of a distributed-tracing client: a trace/span state
//! machine that reconstructs parent/child structure from a stream of span
//! lifecycle events, an event-loop step function that interprets commands
//! and decides when a trace is flushed, and a wire codec that turns flushed
//! batches into the collector's JSON shape.

pub mod apm_config;
pub mod codec;
pub mod config;
pub mod decode;
pub mod event_loop;
pub mod hashmap_visitor;
pub mod log_record;
pub mod logging_config;
pub mod raw_span;
pub mod runtime;
pub mod span;
pub mod span_collection;
pub mod span_storage;
pub mod sql_info;
pub mod strutil;
pub mod tags;
pub mod trace_command;
