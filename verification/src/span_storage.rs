//! The table of all in-flight traces: trace id to buffer, span id to owning
//! trace, and the thread/trace correlation used to annotate logs and resolve
//! flush targets. Every operation is specified as a transition function on
//! `StorageModel`.

use crate::span::{Span, SpanModel};
use crate::span_collection::{
    spec_add_tag, spec_close, spec_current_id, spec_drain_batch, spec_enter, spec_exit, spec_start,
    spans_view, BufferModel, SpanCollection,
};
use crate::strutil::u64_dec;
use std::collections::HashMap;
use vstd::prelude::*;

verus! {

broadcast use vstd::std_specs::hash::group_hash_axioms;

/// The mathematical content of a `SpanStorage`.
pub ghost struct StorageModel {
    pub traces: Map<u64, BufferModel>,
    pub span_owner: Map<u64, u64>,
    pub thread_trace: Map<u32, u64>,
    pub trace_thread: Map<u64, u32>,
}

/// The name given to a trace's synthetic root span.
pub open spec fn spec_root_name(trace_id: u64) -> Seq<char> {
    u64_dec(trace_id as nat) + "-traceparent"@
}

/// The synthetic root span for a fresh trace: the announcing span with a
/// fresh identity and the root name.
pub open spec fn spec_root_span(s: SpanModel, root_id: u64) -> SpanModel {
    SpanModel { id: root_id, name: spec_root_name(s.trace_id), ..s }
}

/// A fresh buffer holding only its root span.
pub open spec fn spec_fresh_buffer(s: SpanModel, root_id: u64) -> BufferModel {
    BufferModel {
        completed: Seq::<SpanModel>::empty(),
        root: spec_root_span(s, root_id),
        open: Seq::<SpanModel>::empty(),
        active: Seq::<u64>::empty(),
    }
}

/// Starting a span registers its owner and opens it in its trace's buffer,
/// creating the buffer around a fresh root when the trace is unseen.
pub open spec fn spec_start_span(m: StorageModel, s: SpanModel, root_id: u64) -> StorageModel {
    let owner = m.span_owner.insert(s.id, s.trace_id);
    let buffer = if m.traces.contains_key(s.trace_id) {
        m.traces[s.trace_id]
    } else {
        spec_fresh_buffer(s, root_id)
    };
    StorageModel {
        traces: m.traces.insert(s.trace_id, spec_start(buffer, s)),
        span_owner: owner,
        ..m
    }
}

/// Closing a span removes its owner entry and closes it in its buffer; an
/// unknown span id changes nothing.
pub open spec fn spec_end_span(m: StorageModel, nanos: i64, span_id: u64) -> StorageModel {
    if m.span_owner.contains_key(span_id) {
        let tid = m.span_owner[span_id];
        let owner = m.span_owner.remove(span_id);
        if m.traces.contains_key(tid) {
            StorageModel {
                traces: m.traces.insert(tid, spec_close(m.traces[tid], nanos, span_id)),
                span_owner: owner,
                ..m
            }
        } else {
            StorageModel { span_owner: owner, ..m }
        }
    } else {
        m
    }
}

/// Entering a span marks it on its trace's nesting stack and records the
/// thread/trace correlation, last entrant winning; an unknown span id
/// changes nothing.
pub open spec fn spec_enter_span(m: StorageModel, thread_id: u32, span_id: u64) -> StorageModel {
    if m.span_owner.contains_key(span_id) {
        let tid = m.span_owner[span_id];
        let traces = if m.traces.contains_key(tid) {
            m.traces.insert(tid, spec_enter(m.traces[tid], span_id))
        } else {
            m.traces
        };
        StorageModel {
            traces,
            thread_trace: m.thread_trace.insert(thread_id, tid),
            trace_thread: m.trace_thread.insert(tid, thread_id),
            ..m
        }
    } else {
        m
    }
}

/// Dropping a trace's thread association, in both directions.
pub open spec fn spec_remove_current_trace(m: StorageModel, trace_id: u64) -> StorageModel {
    if m.trace_thread.contains_key(trace_id) {
        StorageModel {
            thread_trace: m.thread_trace.remove(m.trace_thread[trace_id]),
            trace_thread: m.trace_thread.remove(trace_id),
            ..m
        }
    } else {
        m
    }
}

/// Exiting a span unmarks it on its trace's nesting stack and clears the
/// trace's thread association; an unknown span id changes nothing.
pub open spec fn spec_exit_span(m: StorageModel, span_id: u64) -> StorageModel {
    if m.span_owner.contains_key(span_id) {
        let tid = m.span_owner[span_id];
        let m1 = if m.traces.contains_key(tid) {
            StorageModel { traces: m.traces.insert(tid, spec_exit(m.traces[tid], span_id)), ..m }
        } else {
            m
        };
        spec_remove_current_trace(m1, tid)
    } else {
        m
    }
}

/// The batch a drain of `trace_id` returns; empty when the trace is unknown.
pub open spec fn spec_drain_batch_of(
    m: StorageModel,
    trace_id: u64,
    now: i64,
    end_time: i64,
) -> Seq<SpanModel> {
    if m.traces.contains_key(trace_id) {
        spec_drain_batch(m.traces[trace_id], now, end_time)
    } else {
        Seq::<SpanModel>::empty()
    }
}

/// Draining removes the trace's buffer entirely.
pub open spec fn spec_drain_state(m: StorageModel, trace_id: u64) -> StorageModel {
    StorageModel { traces: m.traces.remove(trace_id), ..m }
}

/// Tagging a known trace tags its buffer; an unknown trace id changes
/// nothing.
pub open spec fn spec_record_tag(
    m: StorageModel,
    trace_id: u64,
    k: Seq<char>,
    v: Seq<char>,
) -> StorageModel {
    if m.traces.contains_key(trace_id) {
        StorageModel { traces: m.traces.insert(trace_id, spec_add_tag(m.traces[trace_id], k, v)), ..m }
    } else {
        m
    }
}

/// The trace the thread is currently in, if any.
pub open spec fn spec_trace_of_thread(m: StorageModel, thread_id: u32) -> Option<u64> {
    if m.thread_trace.contains_key(thread_id) {
        Some(m.thread_trace[thread_id])
    } else {
        None
    }
}

/// The innermost entered span of a trace, if any.
pub open spec fn spec_current_span_of(m: StorageModel, trace_id: u64) -> Option<u64> {
    if m.traces.contains_key(trace_id) {
        spec_current_id(m.traces[trace_id])
    } else {
        None
    }
}

/// A span started and closed with nothing entered in between carries the
/// trace root's id as its parent.
pub proof fn lemma_unentered_span_parent_is_root(
    m: StorageModel,
    s: SpanModel,
    root_id: u64,
    nanos: i64,
)
    requires
        !m.traces.contains_key(s.trace_id) || m.traces[s.trace_id].active.len() == 0,
    ensures
        ({
            let m1 = spec_start_span(m, s, root_id);
            let m2 = spec_end_span(m1, nanos, s.id);
            &&& m2.traces.contains_key(s.trace_id)
            &&& m2.traces[s.trace_id].completed.len() > 0
            &&& m2.traces[s.trace_id].completed.last().id == s.id
            &&& m2.traces[s.trace_id].completed.last().parent_id == Some(
                m1.traces[s.trace_id].root.id,
            )
        }),
{
    let m1 = spec_start_span(m, s, root_id);
    let b1 = m1.traces[s.trace_id];
    assert(b1.open.last().id == s.id);
    assert(b1.open.last().parent_id == Some(b1.root.id));
    assert(crate::span_collection::last_index_with_id(b1.open, s.id) == b1.open.len() - 1);
    let m2 = spec_end_span(m1, nanos, s.id);
    assert(m2.traces[s.trace_id].completed.last() == crate::span_collection::spec_close_span(
        b1.open.last(),
        nanos,
    ));
}

/// A span started right after another span was entered on the same trace
/// carries the entered span's id as its parent.
pub proof fn lemma_nested_span_parent_is_entered(
    m: StorageModel,
    thread_id: u32,
    entered_id: u64,
    s: SpanModel,
    root_id: u64,
)
    requires
        m.span_owner.contains_key(entered_id),
        m.span_owner[entered_id] == s.trace_id,
        m.traces.contains_key(s.trace_id),
    ensures
        ({
            let m1 = spec_enter_span(m, thread_id, entered_id);
            let m2 = spec_start_span(m1, s, root_id);
            &&& m2.traces[s.trace_id].open.len() > 0
            &&& m2.traces[s.trace_id].open.last().id == s.id
            &&& m2.traces[s.trace_id].open.last().parent_id == Some(entered_id)
        }),
{
}

/// After a trace is drained, a second drain of the same trace id returns
/// nothing.
pub proof fn lemma_second_drain_is_empty(
    m: StorageModel,
    trace_id: u64,
    now: i64,
    end_time: i64,
)
    ensures
        spec_drain_batch_of(spec_drain_state(m, trace_id), trace_id, now, end_time)
            == Seq::<SpanModel>::empty(),
{
}

/// The table of all in-flight traces.
pub struct SpanStorage {
    pub traces: HashMap<u64, SpanCollection>,
    pub spans_to_trace_id: HashMap<u64, u64>,
    pub current_trace_for_thread: HashMap<u32, u64>,
    pub current_thread_for_trace: HashMap<u64, u32>,
}

impl View for SpanStorage {
    type V = StorageModel;

    open spec fn view(&self) -> StorageModel {
        StorageModel {
            traces: self.traces@.map_values(|sc: SpanCollection| sc@),
            span_owner: self.spans_to_trace_id@,
            thread_trace: self.current_trace_for_thread@,
            trace_thread: self.current_thread_for_trace@,
        }
    }
}

impl Default for SpanStorage {
    /// An empty table.
    fn default() -> (r: SpanStorage)
        ensures
            r@.traces == Map::<u64, BufferModel>::empty(),
            r@.span_owner == Map::<u64, u64>::empty(),
            r@.thread_trace == Map::<u32, u64>::empty(),
            r@.trace_thread == Map::<u64, u32>::empty(),
    {
        let r = SpanStorage {
            traces: HashMap::new(),
            spans_to_trace_id: HashMap::new(),
            current_trace_for_thread: HashMap::new(),
            current_thread_for_trace: HashMap::new(),
        };
        proof {
            assert(r@.traces =~= Map::<u64, BufferModel>::empty());
        }
        r
    }
}

impl SpanStorage {
    /// Starting a span with the root identity drawn from the library's
    /// random-number wrapper: some fresh root id is used, nothing more is
    /// known of it.
    pub fn start_span(&mut self, span: Span)
        ensures
            exists|root_id: u64| final(self)@ == spec_start_span(old(self)@, span@, root_id),
    {
        let root_id = crate::runtime::random_u64();
        self.start_span_with_root_id(span, root_id);
    }

    /// Starting a span deterministically: the given `root_id` becomes the
    /// root span's identity if this trace is unseen.
    pub fn start_span_with_root_id(&mut self, span: Span, root_id: u64)
        ensures
            final(self)@ == spec_start_span(old(self)@, span@, root_id),
    {
        let trace_id = span.trace_id();
        self.spans_to_trace_id.insert(span.id(), trace_id);
        match self.traces.remove(&trace_id) {
            Some(mut sc) => {
                sc.start_span(span);
                self.traces.insert(trace_id, sc);
                proof {
                    assert(self@.traces =~= spec_start_span(old(self)@, span@, root_id).traces);
                }
            },
            None => {
                let root_span = Span::new_with_id_name(
                    root_id,
                    root_span_name(trace_id),
                    span.duplicate(),
                );
                let mut sc = SpanCollection::new(root_span);
                sc.start_span(span);
                self.traces.insert(trace_id, sc);
                proof {
                    assert(self@.traces =~= spec_start_span(old(self)@, span@, root_id).traces);
                }
            },
        }
    }

    /// Closes a span and forgets its owner entry; an unknown span id is a
    /// silent no-op.
    pub fn end_span(&mut self, nanos: i64, span_id: u64)
        ensures
            final(self)@ == spec_end_span(old(self)@, nanos, span_id),
    {
        match self.spans_to_trace_id.remove(&span_id) {
            Some(trace_id) => {
                match self.traces.remove(&trace_id) {
                    Some(mut sc) => {
                        sc.end_span(nanos, span_id);
                        self.traces.insert(trace_id, sc);
                        proof {
                            assert(self@.traces =~= spec_end_span(
                                old(self)@,
                                nanos,
                                span_id,
                            ).traces);
                        }
                    },
                    None => {
                        proof {
                            assert(self@.traces =~= old(self)@.traces);
                        }
                    },
                }
            },
            None => {
                proof {
                    assert(self@.span_owner =~= old(self)@.span_owner);
                }
            },
        }
    }

    /// Marks a span as entered and records that its trace now belongs to
    /// `thread_id`; an unknown span id is a no-op.
    pub fn enter_span(&mut self, thread_id: u32, span_id: u64)
        ensures
            final(self)@ == spec_enter_span(old(self)@, thread_id, span_id),
    {
        let trace_id = match self.spans_to_trace_id.get(&span_id) {
            Some(t) => *t,
            None => {
                return ;
            },
        };
        match self.traces.remove(&trace_id) {
            Some(mut sc) => {
                sc.enter_span(span_id);
                self.traces.insert(trace_id, sc);
                proof {
                    assert(self@.traces =~= spec_enter_span(
                        old(self)@,
                        thread_id,
                        span_id,
                    ).traces);
                }
            },
            None => {
                proof {
                    assert(self@.traces =~= old(self)@.traces);
                }
            },
        }
        self.current_trace_for_thread.insert(thread_id, trace_id);
        self.current_thread_for_trace.insert(trace_id, thread_id);
    }

    /// Unmarks an entered span and clears its trace's thread association;
    /// an unknown span id is a no-op.
    pub fn exit_span(&mut self, span_id: u64)
        ensures
            final(self)@ == spec_exit_span(old(self)@, span_id),
    {
        let trace_id = match self.spans_to_trace_id.get(&span_id) {
            Some(t) => *t,
            None => {
                return ;
            },
        };
        match self.traces.remove(&trace_id) {
            Some(mut sc) => {
                sc.exit_span(span_id);
                self.traces.insert(trace_id, sc);
                proof {
                    let m1 = StorageModel {
                        traces: old(self)@.traces.insert(
                            trace_id,
                            spec_exit(old(self)@.traces[trace_id], span_id),
                        ),
                        ..old(self)@
                    };
                    assert(self@.traces =~= m1.traces);
                }
            },
            None => {
                proof {
                    assert(self@.traces =~= old(self)@.traces);
                }
            },
        }
        self.remove_current_trace(trace_id);
    }

    /// Ends the trace: removes its buffer and returns the drained batch;
    /// empty when the trace id is unknown.
    pub fn drain_completed(&mut self, trace_id: u64, now: i64, end_time: i64) -> (r: Vec<Span>)
        ensures
            spans_view(r@) == spec_drain_batch_of(old(self)@, trace_id, now, end_time),
            final(self)@ == spec_drain_state(old(self)@, trace_id),
    {
        match self.traces.remove(&trace_id) {
            Some(mut sc) => {
                let out = sc.drain(now, end_time);
                proof {
                    assert(self@.traces =~= spec_drain_state(old(self)@, trace_id).traces);
                }
                out
            },
            None => {
                proof {
                    assert(self@.traces =~= spec_drain_state(old(self)@, trace_id).traces);
                    assert(spans_view(Seq::<Span>::empty()) =~= Seq::<SpanModel>::empty());
                }
                Vec::new()
            },
        }
    }

    /// Tags a trace's buffer; an unknown trace id is a no-op.
    pub fn span_record_tag(&mut self, trace_id: u64, key: String, value: String)
        ensures
            final(self)@ == spec_record_tag(old(self)@, trace_id, key@, value@),
    {
        match self.traces.remove(&trace_id) {
            Some(mut sc) => {
                sc.add_tag(key, value);
                self.traces.insert(trace_id, sc);
                proof {
                    assert(self@.traces =~= spec_record_tag(
                        old(self)@,
                        trace_id,
                        key@,
                        value@,
                    ).traces);
                }
            },
            None => {
                proof {
                    assert(self@.traces =~= old(self)@.traces);
                }
            },
        }
    }

    /// The trace the thread is currently in, if any.
    pub fn get_trace_id_for_thread(&self, thread_id: u32) -> (r: Option<u64>)
        ensures
            r == spec_trace_of_thread(self@, thread_id),
    {
        match self.current_trace_for_thread.get(&thread_id) {
            Some(t) => Some(*t),
            None => None,
        }
    }

    /// Drops a trace's thread association, in both directions.
    pub fn remove_current_trace(&mut self, trace_id: u64)
        ensures
            final(self)@ == spec_remove_current_trace(old(self)@, trace_id),
    {
        match self.current_thread_for_trace.remove(&trace_id) {
            Some(thread_id) => {
                self.current_trace_for_thread.remove(&thread_id);
            },
            None => {
                proof {
                    assert(self@.trace_thread =~= old(self)@.trace_thread);
                }
            },
        }
    }

    /// The innermost entered span of a trace, if any.
    pub fn current_span_id(&self, trace_id: u64) -> (r: Option<u64>)
        ensures
            r == spec_current_span_of(self@, trace_id),
    {
        match self.traces.get(&trace_id) {
            Some(sc) => sc.current_span_id(),
            None => None,
        }
    }
}

/// The root span's name: the trace id in decimal, then `-traceparent`.
pub fn root_span_name(trace_id: u64) -> (r: String)
    ensures
        r@ == spec_root_name(trace_id),
{
    let mut s = crate::strutil::u64_to_dec(trace_id);
    s.append("-traceparent");
    s
}

} // verus!
