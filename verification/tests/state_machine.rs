use datadog_tracing::config::Config;
use datadog_tracing::event_loop::{apply_command_with_root_id, LoopEffect};
use datadog_tracing::log_record::{LogLevel, LogRecord};
use datadog_tracing::logging_config::LoggingConfig;
use datadog_tracing::raw_span::RawSpan;
use datadog_tracing::span::{NewSpanData, Span};
use datadog_tracing::span_collection::SpanCollection;
use datadog_tracing::span_storage::SpanStorage;
use datadog_tracing::tags::TagMap;
use datadog_tracing::trace_command::TraceCommand;

fn span_at(trace_id: u64, id: u64, name: &str, start: i64) -> Span {
    Span::from(NewSpanData::new_at(trace_id, id, name.to_owned(), "res".to_owned(), start))
}

#[test]
fn unentered_span_parent_is_root() {
    // A NewSpan followed by Close with no Enter in between: the span's
    // record carries the root's id as its parent.
    let mut st = SpanStorage::default();
    st.start_span_with_root_id(span_at(1, 10, "a", 100), 999);
    st.end_span(250, 10);
    let batch = st.drain_completed(1, 400, 500);
    assert_eq!(batch.len(), 2);
    assert_eq!(batch[0].id(), 10);
    assert_eq!(batch[0].parent_id(), Some(999));
    assert_eq!(batch[0].duration(), 150);
    let rec = RawSpan::from(&batch[0], &Config::default());
    assert_eq!(rec.parent_id, Some(999));
    assert_eq!(batch[1].id(), 999);
    assert_eq!(batch[1].parent_id(), None);
}

#[test]
fn nested_span_parent_is_entered_span() {
    let mut st = SpanStorage::default();
    st.start_span_with_root_id(span_at(1, 10, "outer", 100), 999);
    st.enter_span(7, 10);
    st.start_span_with_root_id(span_at(1, 11, "inner", 150), 998);
    let batch = st.drain_completed(1, 400, 500);
    assert_eq!(batch.len(), 3);
    assert_eq!(batch[1].id(), 11);
    assert_eq!(batch[1].parent_id(), Some(10));
}

#[test]
fn exit_is_idempotent_on_absent_id() {
    let root = span_at(1, 999, "root", 0);
    let mut buf = SpanCollection::new(root);
    buf.start_span(span_at(1, 5, "a", 10));
    buf.enter_span(5);
    // Exiting an id that is not on the stack: no panic, no state change.
    buf.exit_span(7);
    assert_eq!(buf.current_span_id(), Some(5));
    buf.exit_span(5);
    assert_eq!(buf.current_span_id(), None);
    buf.exit_span(5);
    assert_eq!(buf.current_span_id(), None);
}

#[test]
fn exit_removes_most_recent_occurrence() {
    let root = span_at(1, 999, "root", 0);
    let mut buf = SpanCollection::new(root);
    buf.enter_span(5);
    buf.enter_span(6);
    buf.enter_span(5);
    buf.exit_span(5);
    assert_eq!(buf.current_span_id(), Some(6));
    buf.exit_span(6);
    assert_eq!(buf.current_span_id(), Some(5));
}

#[test]
fn drain_returns_open_plus_completed_plus_root() {
    let root = span_at(1, 999, "root", 0);
    let mut buf = SpanCollection::new(root);
    buf.start_span(span_at(1, 5, "a", 10));
    buf.start_span(span_at(1, 6, "b", 20));
    buf.start_span(span_at(1, 7, "c", 30));
    buf.end_span(100, 6);
    // One completed, two still open: K + completed + 1 = 2 + 1 + 1.
    let batch = buf.drain(200, 300);
    assert_eq!(batch.len(), 4);
    assert_eq!(batch[0].id(), 6);
    assert_eq!(batch[1].id(), 5);
    assert_eq!(batch[1].duration(), 190);
    assert_eq!(batch[2].id(), 7);
    assert_eq!(batch[3].id(), 999);
    assert_eq!(batch[3].duration(), 300);
}

#[test]
fn second_drain_of_same_trace_is_empty() {
    let mut st = SpanStorage::default();
    st.start_span_with_root_id(span_at(1, 10, "a", 100), 999);
    let first = st.drain_completed(1, 400, 500);
    assert_eq!(first.len(), 2);
    let second = st.drain_completed(1, 600, 700);
    assert_eq!(second.len(), 0);
}

#[test]
fn tags_always_reach_the_root_record() {
    let root = span_at(1, 999, "root", 0);
    let mut buf = SpanCollection::new(root);
    buf.start_span(span_at(1, 5, "child", 10));
    buf.add_tag("custom".to_owned(), "yes".to_owned());
    let batch = buf.drain(100, 200);
    // The tag sits on the open child and on the root.
    assert_eq!(batch[0].tags().get("custom").map(String::as_str), Some("yes"));
    let root_span = &batch[batch.len() - 1];
    assert_eq!(root_span.id(), 999);
    assert_eq!(root_span.tags().get("custom").map(String::as_str), Some("yes"));
    let rec = RawSpan::from(root_span, &Config::default());
    assert_eq!(rec.meta.get("custom").map(String::as_str), Some("yes"));
}

#[test]
fn event_loop_flush_scenario() {
    // NewSpan(trace 1, span 10); Enter(thread 7, span 10); NewSpan(trace 1,
    // span 11) nests under 10; Close(11); Exit(10); Event(thread 7,
    // send_trace=1) flushes one batch of three records.
    let mut st = SpanStorage::default();
    let lc = LoggingConfig::default();
    let e1 = apply_command_with_root_id(
        &mut st,
        TraceCommand::NewSpan(0, NewSpanData::new_at(1, 10, "outer".to_owned(), "r".to_owned(), 100)),
        &lc,
        0,
        999,
    );
    assert!(matches!(e1, LoopEffect::Nothing));
    apply_command_with_root_id(&mut st, TraceCommand::Enter(0, 7, 10), &lc, 0, 0);
    apply_command_with_root_id(
        &mut st,
        TraceCommand::NewSpan(0, NewSpanData::new_at(1, 11, "inner".to_owned(), "r".to_owned(), 150)),
        &lc,
        0,
        998,
    );
    apply_command_with_root_id(&mut st, TraceCommand::CloseSpan(250, 11), &lc, 0, 0);
    apply_command_with_root_id(&mut st, TraceCommand::Exit(0, 10), &lc, 0, 0);
    let mut tags = TagMap::new();
    tags.insert("send_trace".to_owned(), "1".to_owned());
    let eff = apply_command_with_root_id(&mut st, TraceCommand::Event(0, 7, tags, 900), &lc, 400, 0);
    match eff {
        LoopEffect::Flush(batch) => {
            assert_eq!(batch.len(), 3);
            let config = Config::default();
            let recs: Vec<RawSpan> = batch.iter().map(|s| RawSpan::from(s, &config)).collect();
            assert_eq!(recs[0].span_id, 11);
            assert_eq!(recs[0].parent_id, Some(10));
            assert_eq!(recs[1].span_id, 10);
            assert_eq!(recs[1].parent_id, Some(999));
            assert_eq!(recs[2].span_id, 999);
            assert_eq!(recs[2].parent_id, None);
        },
        _ => panic!("expected a flushed batch"),
    }
    // The trace is gone: a second flush of the same trace carries nothing.
    let mut tags2 = TagMap::new();
    tags2.insert("send_trace".to_owned(), "1".to_owned());
    let eff2 = apply_command_with_root_id(&mut st, TraceCommand::Event(0, 7, tags2, 901), &lc, 401, 0);
    assert!(matches!(eff2, LoopEffect::Nothing));
}

#[test]
fn event_with_bad_send_trace_flushes_nothing() {
    let mut st = SpanStorage::default();
    let lc = LoggingConfig::default();
    st.start_span_with_root_id(span_at(1, 10, "a", 100), 999);
    st.enter_span(7, 10);
    let mut tags = TagMap::new();
    tags.insert("send_trace".to_owned(), "not-a-number".to_owned());
    let eff = apply_command_with_root_id(&mut st, TraceCommand::Event(0, 7, tags, 900), &lc, 400, 0);
    assert!(matches!(eff, LoopEffect::Nothing));
    // The trace still exists.
    assert_eq!(st.current_span_id(1), Some(10));
}

#[test]
fn event_tags_reach_the_thread_trace() {
    // A thread inside one trace tags it through an event that names another
    // trace to flush; the two lookups are independent.
    let mut st = SpanStorage::default();
    let lc = LoggingConfig::default();
    st.start_span_with_root_id(span_at(1, 10, "a", 100), 999);
    st.enter_span(7, 10);
    st.start_span_with_root_id(span_at(2, 20, "b", 100), 888);
    let mut tags = TagMap::new();
    tags.insert("send_trace".to_owned(), "2".to_owned());
    tags.insert("error.etype".to_owned(), "io".to_owned());
    tags.insert("custom".to_owned(), "x".to_owned());
    let eff = apply_command_with_root_id(&mut st, TraceCommand::Event(0, 7, tags, 900), &lc, 400, 0);
    match eff {
        LoopEffect::Flush(batch) => {
            assert_eq!(batch.len(), 2);
            assert_eq!(batch[0].trace_id(), 2);
        },
        _ => panic!("expected trace 2 flushed"),
    }
    // Trace 1 carries the renamed error tag and the custom tag on its root.
    let batch1 = st.drain_completed(1, 500, 600);
    let root = &batch1[batch1.len() - 1];
    assert_eq!(root.tags().get("error.type").map(String::as_str), Some("io"));
    assert_eq!(root.tags().get("custom").map(String::as_str), Some("x"));
    assert_eq!(root.tags().get("error.etype"), None);
    assert_eq!(root.tags().get("send_trace"), None);
}

#[test]
fn two_traces_stay_independent() {
    let mut st = SpanStorage::default();
    st.start_span_with_root_id(span_at(1, 10, "a", 100), 999);
    st.start_span_with_root_id(span_at(2, 20, "b", 100), 888);
    st.enter_span(1, 10);
    st.enter_span(2, 20);
    st.span_record_tag(1, "who".to_owned(), "one".to_owned());
    st.span_record_tag(2, "who".to_owned(), "two".to_owned());
    assert_eq!(st.get_trace_id_for_thread(1), Some(1));
    assert_eq!(st.get_trace_id_for_thread(2), Some(2));
    let b1 = st.drain_completed(1, 400, 500);
    let b2 = st.drain_completed(2, 400, 500);
    let r1 = &b1[b1.len() - 1];
    let r2 = &b2[b2.len() - 1];
    assert_eq!(r1.tags().get("who").map(String::as_str), Some("one"));
    assert_eq!(r2.tags().get("who").map(String::as_str), Some("two"));
    assert_eq!(r1.trace_id(), 1);
    assert_eq!(r2.trace_id(), 2);
}

#[test]
fn log_effect_carries_trace_annotation() {
    let mut st = SpanStorage::default();
    let lc = LoggingConfig::default();
    st.start_span_with_root_id(span_at(1, 10, "a", 100), 999);
    st.enter_span(7, 10);
    let rec = LogRecord { thread_id: 7, level: LogLevel::Info, time: 5, msg_str: "hello".to_owned(), module: None };
    let eff = apply_command_with_root_id(&mut st, TraceCommand::Log(rec), &lc, 0, 0);
    match eff {
        LoopEffect::Emit { record, context } => {
            assert_eq!(record.msg_str(), "hello");
            assert_eq!(context, Some((1, 10)));
        },
        _ => panic!("expected an emitted log line"),
    }
}

#[test]
fn log_effect_filters_by_module_substring() {
    let mut st = SpanStorage::default();
    let lc = LoggingConfig::default();
    let rec = LogRecord {
        thread_id: 7,
        level: LogLevel::Debug,
        time: 5,
        msg_str: "quiet".to_owned(),
        module: Some("hyper::client".to_owned()),
    };
    let eff = apply_command_with_root_id(&mut st, TraceCommand::Log(rec), &lc, 0, 0);
    assert!(matches!(eff, LoopEffect::Nothing));
}

#[test]
fn tag_map_is_last_write_wins() {
    let mut m = TagMap::new();
    m.insert("k".to_owned(), "v1".to_owned());
    m.insert("other".to_owned(), "x".to_owned());
    m.insert("k".to_owned(), "v2".to_owned());
    assert_eq!(m.len(), 2);
    assert_eq!(m.get("k").map(String::as_str), Some("v2"));
    assert_eq!(m.remove("k").as_deref(), Some("v2"));
    assert_eq!(m.get("k"), None);
    assert_eq!(m.len(), 1);
}

#[test]
fn root_span_name_is_trace_id_and_suffix() {
    let mut st = SpanStorage::default();
    st.start_span_with_root_id(span_at(42, 10, "a", 100), 999);
    let batch = st.drain_completed(42, 400, 500);
    let root = &batch[batch.len() - 1];
    assert_eq!(root.name(), "42-traceparent");
}
