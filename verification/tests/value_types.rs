use datadog_tracing::apm_config::ApmConfig;
use datadog_tracing::config::Config;
use datadog_tracing::hashmap_visitor::HashMapVisitor;
use datadog_tracing::log_record::{LogLevel, LogRecord};
use datadog_tracing::logging_config::LoggingConfig;
use datadog_tracing::raw_span::RawSpan;
use datadog_tracing::span::{NewSpanData, Span};
use datadog_tracing::sql_info::SqlInfo;

#[test]
fn config_defaults() {
    let c = Config::default();
    assert_eq!(c.service(), "default");
    assert_eq!(c.environment(), None);
    assert_eq!(c.endpoint(), "http://localhost:8123/v0.3/traces");
    assert!(c.enabled());
    assert!(!c.apm_config().apm_enabled());
    let lc = c.logging_config();
    assert_eq!(lc.time_format(), "%Y-%m-%d %H:%M:%S%z");
    assert_eq!(lc.mod_filter().len(), 2);
    assert_eq!(lc.mod_filter()[0], "hyper");
    assert_eq!(lc.mod_filter()[1], "mime");
    assert!(lc.body_filter().is_empty());
    assert!(matches!(lc.level(), LogLevel::Trace));
}

#[test]
fn config_accessors_round_trip() {
    let c = Config::new(
        "svc".to_owned(),
        Some("stage".to_owned()),
        "http://collector:1".to_owned(),
        LoggingConfig::new(LogLevel::Warn, "%H".to_owned(), vec!["m".to_owned()], vec!["b".to_owned()]),
        ApmConfig::new(true, "2".to_owned(), "0.25".to_owned()),
        false,
    );
    assert_eq!(c.service(), "svc");
    assert_eq!(c.environment(), Some("stage"));
    assert_eq!(c.endpoint(), "http://collector:1");
    assert!(!c.enabled());
    assert!(c.apm_config().apm_enabled());
    assert_eq!(c.apm_config().sample_priority(), "2");
    assert_eq!(c.apm_config().sample_rate(), "0.25");
    assert!(matches!(c.logging_config().level(), LogLevel::Warn));
    assert_eq!(c.logging_config().body_filter()[0], "b");
}

#[test]
fn log_level_ordering() {
    assert!(LogLevel::Error.le(&LogLevel::Trace));
    assert!(LogLevel::Info.le(&LogLevel::Info));
    assert!(!LogLevel::Trace.le(&LogLevel::Debug));
}

#[test]
fn log_record_accessors() {
    let r = LogRecord::new(3, LogLevel::Debug, "msg".to_owned(), Some("my::mod".to_owned()));
    assert_eq!(r.thread_id(), 3);
    assert!(matches!(r.level(), LogLevel::Debug));
    assert_eq!(r.msg_str(), "msg");
    assert_eq!(r.module(), Some("my::mod"));
    let bare = LogRecord::new(4, LogLevel::Error, "e".to_owned(), None);
    assert_eq!(bare.module(), None);
}

#[test]
fn sql_info_accessors_and_meta() {
    let q = SqlInfo::new("select 1".to_owned(), "3".to_owned(), "main".to_owned());
    assert_eq!(q.query(), "select 1");
    assert_eq!(q.rows(), "3");
    assert_eq!(q.db(), "main");
    let mut span = Span::from(NewSpanData::new_at(1, 10, "op".to_owned(), "res".to_owned(), 5));
    span.sql = Some(q);
    let rec = RawSpan::from(&span, &Config::default());
    assert_eq!(rec.meta.get("sql.query").map(String::as_str), Some("select 1"));
    assert_eq!(rec.meta.get("sql.rows").map(String::as_str), Some("3"));
    assert_eq!(rec.meta.get("sql.db").map(String::as_str), Some("main"));
}

#[test]
fn span_copies_with_overrides() {
    let base = Span::from(NewSpanData::new_at(7, 10, "op".to_owned(), "res".to_owned(), 5));
    assert_eq!(base.trace_id(), 7);
    assert_eq!(base.id(), 10);
    assert_eq!(base.name(), "op");
    assert_eq!(base.resource(), "res");
    assert_eq!(base.start(), 5);
    assert_eq!(base.duration(), 0);
    assert_eq!(base.parent_id(), None);
    assert!(base.sql().is_none());
    let renamed = Span::new_with_id_name(99, "root".to_owned(), base.duplicate());
    assert_eq!(renamed.id(), 99);
    assert_eq!(renamed.name(), "root");
    assert_eq!(renamed.trace_id(), 7);
    let parented = Span::new_with_parent_id(Some(99), base.duplicate());
    assert_eq!(parented.parent_id(), Some(99));
    let timed = Span::new_with_duration(123, base);
    assert_eq!(timed.duration(), 123);
}

#[test]
fn raw_span_type_follows_http_tag() {
    let mut with_http = Span::from(NewSpanData::new_at(1, 2, "a".to_owned(), "r".to_owned(), 0));
    with_http.add_tag("http.url".to_owned(), "http://u".to_owned());
    let rec = RawSpan::from(&with_http, &Config::default());
    assert_eq!(rec.span_type, "custom");
    assert_eq!(rec.error, 0);
    let plain = Span::from(NewSpanData::new_at(1, 3, "a".to_owned(), "r".to_owned(), 0));
    let rec2 = RawSpan::from(&plain, &Config::default());
    assert_eq!(rec2.span_type, "web");
    // No environment configured: no env entry in meta.
    assert_eq!(rec2.meta.get("env"), None);
    // APM analytics off: no metrics.
    assert_eq!(rec2.metrics.len(), 0);
}

#[test]
fn raw_span_tag_overrides_env_entry() {
    let mut span = Span::from(NewSpanData::new_at(1, 2, "a".to_owned(), "r".to_owned(), 0));
    span.add_tag("env".to_owned(), "override".to_owned());
    let c = Config::new(
        "svc".to_owned(),
        Some("fromconfig".to_owned()),
        "e".to_owned(),
        LoggingConfig::default(),
        ApmConfig::default(),
        true,
    );
    let rec = RawSpan::from(&span, &c);
    assert_eq!(rec.meta.get("env").map(String::as_str), Some("override"));
}

#[test]
fn visitor_collects_and_hands_out() {
    let mut v = HashMapVisitor::default();
    assert_eq!(v.remove("missing"), None);
    v.add_value("k1".to_owned(), "a".to_owned());
    v.add_value("k2".to_owned(), "b".to_owned());
    v.add_value("k1".to_owned(), "c".to_owned());
    assert_eq!(v.remove("k2").as_deref(), Some("b"));
    let m = v.take();
    assert_eq!(m.len(), 1);
    assert_eq!(m.get("k1").map(String::as_str), Some("c"));
    let empty = v.take();
    assert_eq!(empty.len(), 0);
}
