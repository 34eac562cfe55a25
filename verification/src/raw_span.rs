//! The output projection: one wire record per span, derived from a span and
//! the process configuration. The `metrics` values are wire text for JSON
//! numbers, checked at encoding time.

use crate::config::{Config, ConfigModel};
use crate::span::{Span, SpanModel};
use crate::span_collection::{spec_add_tag, BufferModel};
use crate::tags::{tag_get, tag_insert, tag_keys_unique, TagMap, TagSeq};
use vstd::prelude::*;

verus! {

/// The mathematical content of a `RawSpan`.
pub ghost struct RawSpanModel {
    pub service: Seq<char>,
    pub name: Seq<char>,
    pub resource: Seq<char>,
    pub trace_id: u64,
    pub span_id: u64,
    pub parent_id: Option<u64>,
    pub start: i64,
    pub duration: i64,
    pub error: i32,
    pub meta: TagSeq,
    pub metrics: TagSeq,
    pub span_type: Seq<char>,
}

/// One wire record. `span_type` is emitted under the wire key `type`.
pub struct RawSpan {
    pub service: String,
    pub name: String,
    pub resource: String,
    pub trace_id: u64,
    pub span_id: u64,
    pub parent_id: Option<u64>,
    pub start: i64,
    pub duration: i64,
    pub error: i32,
    pub meta: TagMap,
    pub metrics: TagMap,
    pub span_type: String,
}

impl View for RawSpan {
    type V = RawSpanModel;

    open spec fn view(&self) -> RawSpanModel {
        RawSpanModel {
            service: self.service@,
            name: self.name@,
            resource: self.resource@,
            trace_id: self.trace_id,
            span_id: self.span_id,
            parent_id: self.parent_id,
            start: self.start,
            duration: self.duration,
            error: self.error,
            meta: self.meta@,
            metrics: self.metrics@,
            span_type: self.span_type@,
        }
    }
}

/// `extra`, written over `base` entry by entry, first to last.
pub open spec fn tags_into(base: TagSeq, extra: TagSeq) -> TagSeq
    decreases extra.len(),
{
    if extra.len() == 0 {
        base
    } else {
        tags_into(tag_insert(base, extra[0].0, extra[0].1), extra.drop_first())
    }
}

/// The `meta` table: the configured environment (if any), then the span's
/// SQL annotations (if any), all overridden by the span's own tags.
pub open spec fn spec_fill_meta(s: SpanModel, environment: Option<Seq<char>>) -> TagSeq {
    let base = match environment {
        Some(e) => seq![("env"@, e)],
        None => Seq::<(Seq<char>, Seq<char>)>::empty(),
    };
    let base2 = match s.sql {
        Some(q) => base + seq![
            ("sql.query"@, q.query),
            ("sql.rows"@, q.rows),
            ("sql.db"@, q.db),
        ],
        None => base,
    };
    tags_into(base2, s.tags)
}

/// The `metrics` table: the sampling priority and analytics sample rate when
/// APM analytics is enabled, else nothing.
pub open spec fn spec_fill_metrics(apm: crate::apm_config::ApmModel) -> TagSeq {
    if apm.apm_enabled {
        seq![
            ("_sampling_priority_v1"@, apm.sample_priority),
            ("_dd1.sr.eausr"@, apm.sample_rate),
        ]
    } else {
        Seq::<(Seq<char>, Seq<char>)>::empty()
    }
}

/// The record derived from a span: `error` is set exactly when the tag
/// `error.message` is present, the type is `custom` exactly when the tag
/// `http.url` is present (else `web`), and every other field is copied or
/// derived as `spec_fill_meta` / `spec_fill_metrics` say.
pub open spec fn spec_raw_span(s: SpanModel, c: ConfigModel) -> RawSpanModel {
    RawSpanModel {
        service: c.service,
        name: s.name,
        resource: s.resource,
        trace_id: s.trace_id,
        span_id: s.id,
        parent_id: s.parent_id,
        start: s.start,
        duration: s.duration,
        error: if tag_get(s.tags, "error.message"@) is Some {
            1
        } else {
            0
        },
        meta: spec_fill_meta(s, c.environment),
        metrics: spec_fill_metrics(c.apm),
        span_type: if tag_get(s.tags, "http.url"@) is Some {
            "custom"@
        } else {
            "web"@
        },
    }
}

/// Writing a table over a base, one more entry at the end.
proof fn lemma_tags_into_snoc(base: TagSeq, extra: TagSeq, p: (Seq<char>, Seq<char>))
    ensures
        tags_into(base, extra.push(p)) == tag_insert(tags_into(base, extra), p.0, p.1),
    decreases extra.len(),
{
    if extra.len() == 0 {
        assert(extra.push(p)[0] == p);
        assert(extra.push(p).drop_first() =~= Seq::<(Seq<char>, Seq<char>)>::empty());
        assert(tags_into(base, extra.push(p)) == tags_into(
            tag_insert(base, p.0, p.1),
            extra.push(p).drop_first(),
        ));
        assert(tags_into(tag_insert(base, p.0, p.1), extra.push(p).drop_first()) == tag_insert(
            base,
            p.0,
            p.1,
        ));
        assert(tags_into(base, extra) == base);
    } else {
        assert(extra.push(p)[0] == extra[0]);
        assert(extra.push(p).drop_first() =~= extra.drop_first().push(p));
        let base1 = tag_insert(base, extra[0].0, extra[0].1);
        lemma_tags_into_snoc(base1, extra.drop_first(), p);
        assert(tags_into(base, extra.push(p)) == tags_into(base1, extra.push(p).drop_first()));
        assert(tags_into(base, extra) == tags_into(base1, extra.drop_first()));
    }
}

/// A key that the written table holds wins over the base; any other key
/// keeps its base value.
pub proof fn lemma_tags_into_get(base: TagSeq, extra: TagSeq, q: Seq<char>)
    requires
        tag_keys_unique(extra),
    ensures
        tag_get(tags_into(base, extra), q) == match tag_get(extra, q) {
            Some(v) => Some(v),
            None => tag_get(base, q),
        },
    decreases extra.len(),
{
    if extra.len() == 0 {
    } else {
        let base1 = tag_insert(base, extra[0].0, extra[0].1);
        assert(tag_keys_unique(extra.drop_first())) by {
            assert(forall|i: int, j: int|
                0 <= i < j < extra.drop_first().len() ==> (#[trigger] extra.drop_first()[i],
                #[trigger] extra.drop_first()[j]) == (extra[i + 1], extra[j + 1]));
        }
        lemma_tags_into_get(base1, extra.drop_first(), q);
        crate::tags::lemma_tag_get_insert(base, extra[0].0, extra[0].1, q);
        if q == extra[0].0 {
            assert(tag_get(extra.drop_first(), q) is None) by {
                crate::tags::lemma_tag_get_exists(extra.drop_first(), q);
                assert forall|i: int| 0 <= i < extra.drop_first().len() implies (
                #[trigger] extra.drop_first()[i]).0 != q by {
                    assert(extra.drop_first()[i] == extra[i + 1]);
                }
            }
        }
    }
}

impl RawSpan {
    /// The wire record for one span under the given configuration.
    pub fn from(span: &Span, config: &Config) -> (r: RawSpan)
        ensures
            r@ == spec_raw_span(span@, config@),
    {
        let http_enabled = span.tags().contains_key("http.url");
        let is_error = span.tags().contains_key("error.message");
        RawSpan {
            service: config.service().to_owned(),
            trace_id: span.trace_id(),
            span_id: span.id(),
            name: span.name().to_owned(),
            resource: span.resource().to_owned(),
            parent_id: span.parent_id(),
            start: span.start(),
            duration: span.duration(),
            error: if is_error {
                1
            } else {
                0
            },
            span_type: if http_enabled {
                "custom"
            } else {
                "web"
            }.to_owned(),
            meta: fill_meta(span, config.environment()),
            metrics: fill_metrics(config.apm_config()),
        }
    }
}

/// The `meta` table of a span's record.
fn fill_meta(span: &Span, environment: Option<&str>) -> (r: TagMap)
    ensures
        r@ == spec_fill_meta(span@, match environment {
            Some(e) => Some(e@),
            None => None::<Seq<char>>,
        }),
{
    let mut meta = TagMap::new();
    if let Some(e) = environment {
        meta.insert("env".to_owned(), e.to_owned());
        proof {
            assert(meta@ =~= seq![("env"@, e@)]);
        }
    }
    if let Some(sql) = span.sql() {
        let ghost before = meta@;
        proof {
            assert(before == match environment {
                Some(e) => seq![("env"@, e@)],
                None => Seq::<(Seq<char>, Seq<char>)>::empty(),
            });
            reveal_strlit("env");
            reveal_strlit("sql.query");
            reveal_strlit("sql.rows");
            reveal_strlit("sql.db");
            assert forall|j: int| 0 <= j < before.len() implies (#[trigger] before[j]).0
                != "sql.query"@ by {
                reveal_strlit("env");
                reveal_strlit("sql.query");
                assert(before[j].0 == "env"@);
            }
            crate::tags::lemma_tag_insert_absent(before, "sql.query"@, sql@.query);
        }
        meta.insert("sql.query".to_owned(), sql.query().to_owned());
        proof {
            let m1 = before.push(("sql.query"@, sql@.query));
            assert(meta@ == m1);
            assert forall|j: int| 0 <= j < m1.len() implies (#[trigger] m1[j]).0 != "sql.rows"@ by {
                reveal_strlit("env");
                reveal_strlit("sql.query");
                reveal_strlit("sql.rows");
                if j < before.len() {
                    assert(m1[j].0 == "env"@);
                    assert("env"@.len() == 3);
                    assert("sql.rows"@.len() == 8);
                } else {
                    assert(j == before.len());
                    assert(m1[j] == ("sql.query"@, sql@.query));
                    assert(m1[j].0 == "sql.query"@);
                    assert("sql.query"@.len() == 9);
                    assert("sql.rows"@.len() == 8);
                }
            }
            crate::tags::lemma_tag_insert_absent(m1, "sql.rows"@, sql@.rows);
        }
        meta.insert("sql.rows".to_owned(), sql.rows().to_owned());
        proof {
            let m2 = before.push(("sql.query"@, sql@.query)).push(("sql.rows"@, sql@.rows));
            assert(meta@ == m2);
            assert forall|j: int| 0 <= j < m2.len() implies (#[trigger] m2[j]).0 != "sql.db"@ by {
                reveal_strlit("env");
                reveal_strlit("sql.query");
                reveal_strlit("sql.rows");
                reveal_strlit("sql.db");
                if j < before.len() {
                    assert(m2[j].0 == "env"@);
                    assert("env"@.len() == 3);
                    assert("sql.db"@.len() == 6);
                } else if j == before.len() {
                    assert(m2[j] == ("sql.query"@, sql@.query));
                    assert("sql.query"@.len() == 9);
                    assert("sql.db"@.len() == 6);
                } else {
                    assert(j == before.len() + 1);
                    assert(m2[j] == ("sql.rows"@, sql@.rows));
                    assert("sql.rows"@.len() == 8);
                    assert("sql.db"@.len() == 6);
                }
            }
            crate::tags::lemma_tag_insert_absent(m2, "sql.db"@, sql@.db);
        }
        meta.insert("sql.db".to_owned(), sql.db().to_owned());
        proof {
            assert(meta@ =~= before + seq![
                ("sql.query"@, sql@.query),
                ("sql.rows"@, sql@.rows),
                ("sql.db"@, sql@.db),
            ]);
        }
    }
    let ghost base2 = meta@;
    let n = span.tags.entries.len();
    let mut i: usize = 0;
    while i < n
        invariant
            n == span@.tags.len(),
            span@.tags == span.tags@,
            0 <= i <= n,
            span.tags.entries@.len() == n,
            meta@ == tags_into(base2, span@.tags.take(i as int)),
        decreases n - i,
    {
        let key = span.tags.entries[i].0.clone();
        let value = span.tags.entries[i].1.clone();
        let ghost before = meta@;
        meta.insert(key, value);
        proof {
            assert(span@.tags.take(i + 1).drop_last() =~= span@.tags.take(i as int));
            assert(span@.tags.take(i + 1) =~= span@.tags.take(i as int).push(span@.tags[i as int]));
            lemma_tags_into_snoc(base2, span@.tags.take(i as int), span@.tags[i as int]);
        }
        i += 1;
    }
    proof {
        assert(span@.tags.take(n as int) =~= span@.tags);
    }
    meta
}

/// The `metrics` table of a record under the given APM settings.
fn fill_metrics(apm_config: &crate::apm_config::ApmConfig) -> (r: TagMap)
    ensures
        r@ == spec_fill_metrics(apm_config@),
{
    if apm_config.apm_enabled() {
        let mut metrics = TagMap::new();
        metrics.insert("_sampling_priority_v1".to_owned(), apm_config.sample_priority().to_owned());
        proof {
            assert(metrics@ =~= seq![("_sampling_priority_v1"@, apm_config@.sample_priority)]);
        }
        metrics.insert("_dd1.sr.eausr".to_owned(), apm_config.sample_rate().to_owned());
        proof {
            reveal_strlit("_sampling_priority_v1");
            reveal_strlit("_dd1.sr.eausr");
            let m1 = seq![("_sampling_priority_v1"@, apm_config@.sample_priority)];
            assert forall|j: int| 0 <= j < m1.len() implies (#[trigger] m1[j]).0
                != "_dd1.sr.eausr"@ by {
                reveal_strlit("_sampling_priority_v1");
                reveal_strlit("_dd1.sr.eausr");
                assert(m1[j].0 == "_sampling_priority_v1"@);
                assert("_sampling_priority_v1"@.len() != "_dd1.sr.eausr"@.len());
            }
            crate::tags::lemma_tag_insert_absent(m1, "_dd1.sr.eausr"@, apm_config@.sample_rate);
            assert(metrics@ =~= spec_fill_metrics(apm_config@));
        }
        metrics
    } else {
        TagMap::new()
    }
}

/// A tag written by `add_tag` appears, with the written value, in the root
/// span's output record, whatever base entries and other tags the record
/// carries.
pub proof fn lemma_added_tag_reaches_root_record(
    b: BufferModel,
    k: Seq<char>,
    v: Seq<char>,
    c: ConfigModel,
)
    requires
        tag_keys_unique(b.root.tags),
    ensures
        tag_get(spec_raw_span(spec_add_tag(b, k, v).root, c).meta, k) == Some(v),
{
    let root1 = spec_add_tag(b, k, v).root;
    assert(root1.tags == tag_insert(b.root.tags, k, v));
    crate::tags::lemma_tag_get_insert(b.root.tags, k, v, k);
    crate::tags::lemma_tag_insert_unique(b.root.tags, k, v);
    let base2 = match root1.sql {
        Some(q) => (match c.environment {
            Some(e) => seq![("env"@, e)],
            None => Seq::<(Seq<char>, Seq<char>)>::empty(),
        }) + seq![("sql.query"@, q.query), ("sql.rows"@, q.rows), ("sql.db"@, q.db)],
        None => match c.environment {
            Some(e) => seq![("env"@, e)],
            None => Seq::<(Seq<char>, Seq<char>)>::empty(),
        },
    };
    lemma_tags_into_get(base2, root1.tags, k);
}

/// The record of any span keeps that span's parent: projection changes no
/// identities.
pub proof fn lemma_record_keeps_identity(s: SpanModel, c: ConfigModel)
    ensures
        spec_raw_span(s, c).span_id == s.id,
        spec_raw_span(s, c).trace_id == s.trace_id,
        spec_raw_span(s, c).parent_id == s.parent_id,
        spec_raw_span(s, c).name == s.name,
{
}

} // verus!
