//! The single consumer's step function: how one command changes the trace
//! table and what observable effect it produces (a rendered log line or a
//! flushed batch). The loop around it — receiving commands, rendering, and
//! delivery — is ordinary I/O and lives outside the library.

use crate::log_record::{LogRecord, LogRecordModel};
use crate::logging_config::{LoggingConfig, LoggingModel};
use crate::span::{Span, SpanModel};
use crate::span_collection::spans_view;
use crate::span_storage::{
    spec_drain_batch_of, spec_drain_state, spec_end_span, spec_enter_span, spec_exit_span,
    spec_record_tag, spec_remove_current_trace, spec_start_span, spec_trace_of_thread,
    spec_current_span_of, SpanStorage, StorageModel,
};
use crate::strutil::{contains_seq, spec_parse_u64};
use crate::tags::{tag_get, tag_remove, TagSeq};
use crate::trace_command::TraceCommand;
use vstd::prelude::*;

verus! {

/// What one command makes observable: nothing, a log line to render, or a
/// batch to hand to the dispatcher.
pub enum LoopEffect {
    Nothing,
    /// Render this record; `context` carries the issuing thread's
    /// `(trace id, span id)` when it is inside a trace with an entered span.
    Emit { record: LogRecord, context: Option<(u64, u64)> },
    /// Submit this non-empty batch to the dispatcher.
    Flush(Vec<Span>),
}

/// A record survives the module and body substring filters.
pub open spec fn spec_should_log(rec: LogRecordModel, lc: LoggingModel) -> bool {
    let mod_skip = match rec.module {
        Some(m) => exists|i: int| 0 <= i < lc.mod_filter.len() && contains_seq(
            m,
            #[trigger] lc.mod_filter[i],
        ),
        None => false,
    };
    let body_skip = exists|i: int| 0 <= i < lc.body_filter.len() && contains_seq(
        rec.msg_str,
        #[trigger] lc.body_filter[i],
    );
    !mod_skip && !body_skip
}

/// The `(trace id, span id)` annotation for a log line from `thread_id`:
/// present when the thread is in a trace and that trace has an entered span.
pub open spec fn spec_log_context(m: StorageModel, thread_id: u32) -> Option<(u64, u64)> {
    match spec_trace_of_thread(m, thread_id) {
        Some(tid) => match spec_current_span_of(m, tid) {
            Some(sp) => Some((tid, sp)),
            None => None,
        },
        None => None,
    }
}

/// The trace an event flushes: the parse of an explicit `send_trace` tag
/// when one is present (a bad parse flushes nothing), else the issuing
/// thread's current trace.
pub open spec fn spec_flush_target(m: StorageModel, thread_id: u32, tags: TagSeq) -> Option<u64> {
    match tag_get(tags, "send_trace"@) {
        Some(t) => spec_parse_u64(t),
        None => spec_trace_of_thread(m, thread_id),
    }
}

/// Recording a run of tags on one trace, first to last.
pub open spec fn spec_record_all(m: StorageModel, tid: u64, entries: TagSeq) -> StorageModel
    decreases entries.len(),
{
    if entries.len() == 0 {
        m
    } else {
        spec_record_all(
            spec_record_tag(m, tid, entries[0].0, entries[0].1),
            tid,
            entries.drop_first(),
        )
    }
}

/// The tagging half of an event: if the issuing thread is (still) inside a
/// trace, the reserved error-type tag is renamed and recorded first, then
/// every remaining tag is recorded in order.
pub open spec fn spec_event_tag_state(m: StorageModel, thread_id: u32, rest: TagSeq) -> StorageModel {
    match spec_trace_of_thread(m, thread_id) {
        Some(tid) => {
            let m2 = match tag_get(rest, "error.etype"@) {
                Some(v) => spec_record_tag(m, tid, "error.type"@, v),
                None => m,
            };
            spec_record_all(m2, tid, tag_remove(rest, "error.etype"@))
        },
        None => m,
    }
}

/// The state after an event command: the flush target (if any) is drained
/// and its thread association cleared, then the remaining tags are recorded
/// against the thread's current trace.
pub open spec fn spec_event_state(
    m: StorageModel,
    thread_id: u32,
    tags: TagSeq,
    end_time: i64,
) -> StorageModel {
    let rest = tag_remove(tags, "send_trace"@);
    let m1 = match spec_flush_target(m, thread_id, tags) {
        Some(tid) => spec_remove_current_trace(spec_drain_state(m, tid), tid),
        None => m,
    };
    spec_event_tag_state(m1, thread_id, rest)
}

/// The batch an event command flushes.
pub open spec fn spec_event_batch(
    m: StorageModel,
    thread_id: u32,
    tags: TagSeq,
    now: i64,
    end_time: i64,
) -> Seq<SpanModel> {
    match spec_flush_target(m, thread_id, tags) {
        Some(tid) => spec_drain_batch_of(m, tid, now, end_time),
        None => Seq::<SpanModel>::empty(),
    }
}

/// The state after one command.
pub open spec fn spec_step_state(
    m: StorageModel,
    cmd: &TraceCommand,
    now: i64,
    root_id: u64,
) -> StorageModel {
    match cmd {
        TraceCommand::Log(_) => m,
        TraceCommand::NewSpan(_, data) => spec_start_span(
            m,
            SpanModel {
                id: data@.id,
                trace_id: data@.trace_id,
                name: data@.name,
                resource: data@.resource,
                parent_id: None,
                start: data@.start,
                duration: 0,
                sql: None,
                tags: Seq::<(Seq<char>, Seq<char>)>::empty(),
            },
            root_id,
        ),
        TraceCommand::Enter(_, thread_id, span_id) => spec_enter_span(m, *thread_id, *span_id),
        TraceCommand::Exit(_, span_id) => spec_exit_span(m, *span_id),
        TraceCommand::CloseSpan(nanos, span_id) => spec_end_span(m, *nanos, *span_id),
        TraceCommand::Event(_, thread_id, tags, end_time) => spec_event_state(
            m,
            *thread_id,
            tags@,
            *end_time,
        ),
    }
}

/// The effect one command must produce: a surviving log record is emitted
/// with the thread's annotation; an event's non-empty drained batch is
/// flushed; everything else is silent.
pub open spec fn spec_step_effect(
    m: StorageModel,
    cmd: &TraceCommand,
    lc: LoggingModel,
    now: i64,
    eff: LoopEffect,
) -> bool {
    match cmd {
        TraceCommand::Log(rec) => {
            if spec_should_log(rec@, lc) {
                &&& eff matches LoopEffect::Emit { record, context }
                &&& record@ == rec@
                &&& context == spec_log_context(m, rec@.thread_id)
            } else {
                eff is Nothing
            }
        },
        TraceCommand::Event(_, thread_id, tags, end_time) => {
            let batch = spec_event_batch(m, *thread_id, tags@, now, *end_time);
            if batch.len() > 0 {
                &&& eff matches LoopEffect::Flush(b)
                &&& spans_view(b@) == batch
            } else {
                eff is Nothing
            }
        },
        _ => eff is Nothing,
    }
}

/// A record survives the configured module and body substring filters.
pub fn should_log(record: &LogRecord, config: &LoggingConfig) -> (r: bool)
    ensures
        r == spec_should_log(record@, config@),
{
    let mf = config.mod_filter();
    let bf = config.body_filter();
    let mod_skip = match record.module() {
        Some(m) => {
            let s = any_filter_matches(mf, m);
            proof {
                lemma_filter_views(mf@, config@.mod_filter, m@);
            }
            s
        },
        None => false,
    };
    let body_skip = any_filter_matches(bf, record.msg_str());
    proof {
        lemma_filter_views(bf@, config@.body_filter, record@.msg_str);
    }
    !mod_skip && !body_skip
}

/// The two phrasings of "some filter occurs in the text" agree when the
/// filter views line up.
proof fn lemma_filter_views(filters: Seq<String>, views: Seq<Seq<char>>, text: Seq<char>)
    requires
        views == Seq::new(filters.len(), |i: int| filters[i]@),
    ensures
        (exists|i: int| 0 <= i < filters.len() && contains_seq(text, #[trigger] filters[i]@))
            == (exists|i: int| 0 <= i < views.len() && contains_seq(text, #[trigger] views[i])),
{
    if exists|i: int| 0 <= i < filters.len() && contains_seq(text, #[trigger] filters[i]@) {
        let i = choose|i: int| 0 <= i < filters.len() && contains_seq(text, #[trigger] filters[i]@);
        assert(views[i] == filters[i]@);
        assert(contains_seq(text, views[i]));
    }
    if exists|i: int| 0 <= i < views.len() && contains_seq(text, #[trigger] views[i]) {
        let i = choose|i: int| 0 <= i < views.len() && contains_seq(text, #[trigger] views[i]);
        assert(views[i] == filters[i]@);
        assert(contains_seq(text, filters[i]@));
    }
}

/// Some filter string occurs in `text`.
fn any_filter_matches(filters: &Vec<String>, text: &str) -> (r: bool)
    ensures
        r == exists|i: int| 0 <= i < filters@.len() && contains_seq(
            text@,
            #[trigger] filters@[i]@,
        ),
{
    let n = filters.len();
    let mut i: usize = 0;
    while i < n
        invariant
            n == filters@.len(),
            0 <= i <= n,
            forall|j: int| 0 <= j < i ==> !contains_seq(text@, #[trigger] filters@[j]@),
        decreases n - i,
    {
        if crate::strutil::str_contains(text, filters[i].as_str()) {
            return true;
        }
        i += 1;
    }
    false
}

/// The `(trace id, span id)` annotation for a log line from `thread_id`.
pub fn log_context(storage: &SpanStorage, thread_id: u32) -> (r: Option<(u64, u64)>)
    ensures
        r == spec_log_context(storage@, thread_id),
{
    match storage.get_trace_id_for_thread(thread_id) {
        Some(tid) => match storage.current_span_id(tid) {
            Some(sp) => Some((tid, sp)),
            None => None,
        },
        None => None,
    }
}

/// Applies one command, drawing any fresh root-span identity from the
/// library's random-number wrapper.
pub fn apply_command(
    storage: &mut SpanStorage,
    cmd: TraceCommand,
    config: &LoggingConfig,
    now: i64,
) -> (eff: LoopEffect)
    ensures
        exists|root_id: u64| final(storage)@ == spec_step_state(old(storage)@, &cmd, now, root_id),
        spec_step_effect(old(storage)@, &cmd, config@, now, eff),
{
    let root_id = crate::runtime::random_u64();
    apply_command_with_root_id(storage, cmd, config, now, root_id)
}

/// Applies one command deterministically: `root_id` becomes the root span's
/// identity if the command opens a span of an unseen trace.
pub fn apply_command_with_root_id(
    storage: &mut SpanStorage,
    cmd: TraceCommand,
    config: &LoggingConfig,
    now: i64,
    root_id: u64,
) -> (eff: LoopEffect)
    ensures
        final(storage)@ == spec_step_state(old(storage)@, &cmd, now, root_id),
        spec_step_effect(old(storage)@, &cmd, config@, now, eff),
{
    let ghost cmd0 = cmd;
    match cmd {
        TraceCommand::Log(record) => {
            if should_log(&record, config) {
                let context = log_context(storage, record.thread_id());
                LoopEffect::Emit { record, context }
            } else {
                LoopEffect::Nothing
            }
        },
        TraceCommand::NewSpan(_nanos, data) => {
            storage.start_span_with_root_id(Span::from(data), root_id);
            LoopEffect::Nothing
        },
        TraceCommand::Enter(_nanos, thread_id, span_id) => {
            storage.enter_span(thread_id, span_id);
            LoopEffect::Nothing
        },
        TraceCommand::Exit(_nanos, span_id) => {
            storage.exit_span(span_id);
            LoopEffect::Nothing
        },
        TraceCommand::CloseSpan(nanos, span_id) => {
            storage.end_span(nanos, span_id);
            LoopEffect::Nothing
        },
        TraceCommand::Event(_nanos, thread_id, mut tags, end_time) => {
            let ghost tags0 = tags@;
            let send_val = tags.remove("send_trace");
            let target = match send_val {
                Some(t) => crate::strutil::parse_u64_str(t.as_str()),
                None => storage.get_trace_id_for_thread(thread_id),
            };
            proof {
                assert(target == spec_flush_target(old(storage)@, thread_id, tags0));
            }
            let mut flushed: Option<Vec<Span>> = None;
            match target {
                Some(tid) => {
                    let batch = storage.drain_completed(tid, now, end_time);
                    storage.remove_current_trace(tid);
                    if batch.len() > 0 {
                        flushed = Some(batch);
                    } else {
                        proof {
                            assert(spec_event_batch(
                                old(storage)@,
                                thread_id,
                                tags0,
                                now,
                                end_time,
                            ).len() == 0);
                        }
                    }
                },
                None => {},
            }
            let ghost m1 = storage@;
            match storage.get_trace_id_for_thread(thread_id) {
                Some(tid2) => {
                    let ghost rest = tags@;
                    match tags.remove("error.etype") {
                        Some(etype) => {
                            storage.span_record_tag(tid2, "error.type".to_owned(), etype);
                        },
                        None => {},
                    }
                    let ghost m2 = storage@;
                    proof {
                        assert(m2 == match tag_get(rest, "error.etype"@) {
                            Some(v) => spec_record_tag(m1, tid2, "error.type"@, v),
                            None => m1,
                        });
                    }
                    let ghost rest2 = tags@;
                    let n = tags.entries.len();
                    let mut i: usize = 0;
                    while i < n
                        invariant
                            n == rest2.len(),
                            tags@ == rest2,
                            tags.entries@.len() == n,
                            0 <= i <= n,
                            storage@ == spec_record_all(m2, tid2, rest2.take(i as int)),
                        decreases n - i,
                    {
                        let key = tags.entries[i].0.clone();
                        let value = tags.entries[i].1.clone();
                        storage.span_record_tag(tid2, key, value);
                        proof {
                            lemma_record_all_snoc(m2, tid2, rest2.take(i as int), rest2[i as int]);
                            assert(rest2.take(i + 1) =~= rest2.take(i as int).push(
                                rest2[i as int],
                            ));
                        }
                        i += 1;
                    }
                    proof {
                        assert(rest2.take(n as int) =~= rest2);
                    }
                },
                None => {},
            }
            match flushed {
                Some(batch) => LoopEffect::Flush(batch),
                None => LoopEffect::Nothing,
            }
        },
    }
}

/// Recording a run of tags, one more at the end.
proof fn lemma_record_all_snoc(m: StorageModel, tid: u64, entries: TagSeq, p: (Seq<char>, Seq<char>))
    ensures
        spec_record_all(m, tid, entries.push(p)) == spec_record_tag(
            spec_record_all(m, tid, entries),
            tid,
            p.0,
            p.1,
        ),
    decreases entries.len(),
{
    if entries.len() == 0 {
        assert(entries.push(p)[0] == p);
        assert(entries.push(p).drop_first() =~= Seq::<(Seq<char>, Seq<char>)>::empty());
        assert(spec_record_all(m, tid, entries.push(p)) == spec_record_all(
            spec_record_tag(m, tid, p.0, p.1),
            tid,
            entries.push(p).drop_first(),
        ));
    } else {
        assert(entries.push(p)[0] == entries[0]);
        assert(entries.push(p).drop_first() =~= entries.drop_first().push(p));
        let m1 = spec_record_tag(m, tid, entries[0].0, entries[0].1);
        lemma_record_all_snoc(m1, tid, entries.drop_first(), p);
        assert(spec_record_all(m, tid, entries.push(p)) == spec_record_all(
            m1,
            tid,
            entries.push(p).drop_first(),
        ));
        assert(spec_record_all(m, tid, entries) == spec_record_all(m1, tid, entries.drop_first()));
    }
}

} // verus!
