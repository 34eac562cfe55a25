use datadog_tracing::apm_config::ApmConfig;
use datadog_tracing::codec::{encode_batch, is_json_number_str};
use datadog_tracing::config::Config;
use datadog_tracing::logging_config::LoggingConfig;
use datadog_tracing::span::{NewSpanData, Span};
use datadog_tracing::strutil::{parse_u64_str, str_contains, str_eq, u64_to_dec};

fn span_at(trace_id: u64, id: u64, name: &str, start: i64) -> Span {
    Span::from(NewSpanData::new_at(trace_id, id, name.to_owned(), "res".to_owned(), start))
}

fn test_config(apm: bool) -> Config {
    Config::new(
        "svc".to_owned(),
        Some("prod".to_owned()),
        "http://localhost:8126".to_owned(),
        LoggingConfig::default(),
        ApmConfig::new(apm, "1".to_owned(), "0.5".to_owned()),
        true,
    )
}

#[test]
fn encode_one_span_exact_text() {
    let span = span_at(1, 10, "op", 100);
    let batch = vec![span];
    let out = encode_batch(&batch, &test_config(false)).unwrap();
    assert_eq!(
        out,
        "[[{\"service\":\"svc\",\"name\":\"op\",\"resource\":\"res\",\
           \"trace_id\":1,\"span_id\":10,\"parent_id\":null,\"start\":100,\
           \"duration\":0,\"error\":0,\"meta\":{\"env\":\"prod\"},\
           \"metrics\":{},\"type\":\"web\"}]]"
            .replace("           ", "")
    );
}

#[test]
fn encoded_batch_round_trips_through_json() {
    // The wire shape decodes back to the same (span_id, trace_id, parent_id,
    // name) tuples that were generated.
    let mut a = span_at(1, 10, "outer", 100);
    a.add_tag("http.url".to_owned(), "http://x/\"q\"\\p".to_owned());
    a.add_tag("note".to_owned(), "line\nbreak".to_owned());
    let b = Span::new_with_parent_id(Some(10), span_at(1, 11, "inner", 150));
    let root = span_at(1, 999, "1-traceparent", 90);
    let batch = vec![a, b, root];
    let expected: Vec<(u64, u64, Option<u64>, String)> = batch
        .iter()
        .map(|s| (s.id(), s.trace_id(), s.parent_id(), s.name().to_owned()))
        .collect();

    let out = encode_batch(&batch, &test_config(true)).unwrap();
    let v: serde_json::Value = serde_json::from_str(&out).expect("wire text is valid JSON");
    let traces = v.as_array().expect("outer array");
    assert_eq!(traces.len(), 1);
    let spans = traces[0].as_array().expect("inner array");
    assert_eq!(spans.len(), 3);
    let decoded: Vec<(u64, u64, Option<u64>, String)> = spans
        .iter()
        .map(|s| {
            (
                s.get("span_id").unwrap().as_u64().unwrap(),
                s.get("trace_id").unwrap().as_u64().unwrap(),
                s.get("parent_id").unwrap().as_u64(),
                s.get("name").unwrap().as_str().unwrap().to_owned(),
            )
        })
        .collect();
    assert_eq!(decoded, expected);
    // Tag values survive escaping.
    assert_eq!(
        spans[0].get("meta").unwrap().get("http.url").unwrap().as_str().unwrap(),
        "http://x/\"q\"\\p"
    );
    assert_eq!(spans[0].get("meta").unwrap().get("note").unwrap().as_str().unwrap(), "line\nbreak");
    // The http.url tag flips the type field; the others stay web.
    assert_eq!(spans[0].get("type").unwrap().as_str().unwrap(), "custom");
    assert_eq!(spans[1].get("type").unwrap().as_str().unwrap(), "web");
    // APM analytics on: the two metrics ride along as numbers.
    let metrics = spans[0].get("metrics").unwrap();
    assert_eq!(metrics.get("_sampling_priority_v1").unwrap().as_f64().unwrap(), 1.0);
    assert_eq!(metrics.get("_dd1.sr.eausr").unwrap().as_f64().unwrap(), 0.5);
}

#[test]
fn library_decoder_round_trips_identities() {
    // decode(encode(batch)) gives back exactly the identity tuples.
    let mut a = span_at(3, 30, "outer \"q\" \\slash\tand\ncontrol", 100);
    a.add_tag("k".to_owned(), "v".to_owned());
    let b = Span::new_with_parent_id(Some(30), span_at(3, 31, "inner", 150));
    let root = span_at(3, 777, "3-traceparent", 90);
    let batch = vec![a, b, root];
    let out = encode_batch(&batch, &test_config(true)).unwrap();
    let decoded = datadog_tracing::decode::decode_batch_identities(&out).expect("decodes");
    assert_eq!(decoded.len(), 3);
    for (d, s) in decoded.iter().zip(batch.iter()) {
        assert_eq!(d.span_id, s.id());
        assert_eq!(d.trace_id, s.trace_id());
        assert_eq!(d.parent_id, s.parent_id());
        assert_eq!(d.name, s.name());
    }
    // Text that is not exactly one batch is refused.
    assert!(datadog_tracing::decode::decode_batch_identities("[[]] ").is_none());
    assert!(datadog_tracing::decode::decode_batch_identities("nonsense").is_none());
    let empty = datadog_tracing::decode::decode_batch_identities("[[]]").expect("empty batch");
    assert_eq!(empty.len(), 0);
}

#[test]
fn error_tag_sets_error_flag() {
    let mut s = span_at(1, 10, "op", 100);
    s.add_tag("error.message".to_owned(), "boom".to_owned());
    let out = encode_batch(&vec![s], &test_config(false)).unwrap();
    let v: serde_json::Value = serde_json::from_str(&out).unwrap();
    let rec = &v[0][0];
    assert_eq!(rec.get("error").unwrap().as_i64().unwrap(), 1);
    let plain = span_at(1, 11, "op", 100);
    let out2 = encode_batch(&vec![plain], &test_config(false)).unwrap();
    let v2: serde_json::Value = serde_json::from_str(&out2).unwrap();
    assert_eq!(v2[0][0].get("error").unwrap().as_i64().unwrap(), 0);
}

#[test]
fn encode_rejects_bad_metric_text() {
    let cfg = Config::new(
        "svc".to_owned(),
        None,
        "e".to_owned(),
        LoggingConfig::default(),
        ApmConfig::new(true, "not a number".to_owned(), "0.5".to_owned()),
        true,
    );
    let r = encode_batch(&vec![span_at(1, 10, "op", 100)], &cfg);
    assert!(r.is_err());
    assert_eq!(
        r.err().unwrap().message(),
        "a metrics value is not the wire text of a number"
    );
}

#[test]
fn encode_empty_batch() {
    let out = encode_batch(&Vec::new(), &test_config(false)).unwrap();
    assert_eq!(out, "[[]]");
}

#[test]
fn json_number_shapes() {
    assert!(is_json_number_str("0"));
    assert!(is_json_number_str("-12"));
    assert!(is_json_number_str("3.25"));
    assert!(is_json_number_str("-0.5"));
    assert!(!is_json_number_str(""));
    assert!(!is_json_number_str("-"));
    assert!(!is_json_number_str("1."));
    assert!(!is_json_number_str(".5"));
    assert!(!is_json_number_str("1.2.3"));
    assert!(!is_json_number_str("1e5"));
    assert!(!is_json_number_str("abc"));
}

#[test]
fn decimal_formatting_and_parsing() {
    assert_eq!(u64_to_dec(0), "0");
    assert_eq!(u64_to_dec(90210), "90210");
    assert_eq!(u64_to_dec(u64::MAX), "18446744073709551615");
    assert_eq!(parse_u64_str("90210"), Some(90210));
    assert_eq!(parse_u64_str("+7"), Some(7));
    assert_eq!(parse_u64_str("18446744073709551615"), Some(u64::MAX));
    assert_eq!(parse_u64_str("18446744073709551616"), None);
    assert_eq!(parse_u64_str(""), None);
    assert_eq!(parse_u64_str("12x"), None);
    assert_eq!(parse_u64_str("-3"), None);
}

#[test]
fn string_search_helpers() {
    assert!(str_eq("abc", "abc"));
    assert!(!str_eq("abc", "abd"));
    assert!(!str_eq("abc", "ab"));
    assert!(str_contains("hyper::client", "hyper"));
    assert!(str_contains("anything", ""));
    assert!(!str_contains("mime", "hyper"));
    assert!(str_contains("xxhyperyy", "hyper"));
}
