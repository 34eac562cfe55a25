//! The in-flight state of one trace: open spans, completed spans, the
//! active-span nesting stack, and the synthetic root span. Every operation
//! is specified as a transition function on `BufferModel`.

use crate::span::{Span, SpanModel};
use crate::tags::tag_insert;
use vstd::prelude::*;

verus! {

/// The mathematical content of a `SpanCollection`.
pub ghost struct BufferModel {
    pub completed: Seq<SpanModel>,
    pub root: SpanModel,
    pub open: Seq<SpanModel>,
    pub active: Seq<u64>,
}

/// Nanoseconds from `start` to `now`, saturated to the `i64` range.
pub open spec fn spec_elapsed(now: i64, start: i64) -> i64 {
    if now - start > i64::MAX {
        i64::MAX
    } else if now - start < i64::MIN {
        i64::MIN
    } else {
        (now - start) as i64
    }
}

/// The id of the innermost entered span, if any.
pub open spec fn spec_current_id(b: BufferModel) -> Option<u64> {
    if b.active.len() > 0 {
        Some(b.active.last())
    } else {
        None
    }
}

/// The parent assigned to a newly started span: the innermost entered span,
/// or the root when nothing is entered.
pub open spec fn spec_parent_for_new(b: BufferModel) -> Option<u64> {
    Some(
        if b.active.len() > 0 {
            b.active.last()
        } else {
            b.root.id
        },
    )
}

/// Starting a span appends it to `open` with its parent assigned.
pub open spec fn spec_start(b: BufferModel, s: SpanModel) -> BufferModel {
    BufferModel { open: b.open.push(SpanModel { parent_id: spec_parent_for_new(b), ..s }), ..b }
}

/// Index of the most recent span in `s` with the given id; negative when
/// there is none.
pub open spec fn last_index_with_id(s: Seq<SpanModel>, id: u64) -> int
    decreases s.len(),
{
    if s.len() == 0 {
        -1
    } else if s.last().id == id {
        s.len() - 1
    } else {
        last_index_with_id(s.drop_last(), id)
    }
}

/// `s`, closed at `now`: same span with its duration computed.
pub open spec fn spec_close_span(s: SpanModel, now: i64) -> SpanModel {
    SpanModel { duration: spec_elapsed(now, s.start), ..s }
}

/// Closing a span moves its most recent open occurrence to `completed`; an
/// unknown id changes nothing.
pub open spec fn spec_close(b: BufferModel, nanos: i64, id: u64) -> BufferModel {
    let i = last_index_with_id(b.open, id);
    if i < 0 {
        b
    } else {
        BufferModel {
            open: b.open.remove(i),
            completed: b.completed.push(spec_close_span(b.open[i], nanos)),
            ..b
        }
    }
}

/// Entering pushes onto the nesting stack unconditionally.
pub open spec fn spec_enter(b: BufferModel, id: u64) -> BufferModel {
    BufferModel { active: b.active.push(id), ..b }
}

/// The stack with the most recent occurrence of `x` removed; unchanged when
/// `x` is absent.
pub open spec fn remove_last_occurrence(s: Seq<u64>, x: u64) -> Seq<u64>
    decreases s.len(),
{
    if s.len() == 0 {
        s
    } else if s.last() == x {
        s.drop_last()
    } else {
        remove_last_occurrence(s.drop_last(), x).push(s.last())
    }
}

/// Exiting removes the most recent occurrence from the nesting stack.
pub open spec fn spec_exit(b: BufferModel, id: u64) -> BufferModel {
    BufferModel { active: remove_last_occurrence(b.active, id), ..b }
}

/// Tagging writes to the most recently started still-open span (if any) and
/// always to the root.
pub open spec fn spec_add_tag(b: BufferModel, k: Seq<char>, v: Seq<char>) -> BufferModel {
    let b1 = if b.open.len() > 0 {
        BufferModel {
            open: b.open.update(
                b.open.len() - 1,
                SpanModel { tags: tag_insert(b.open.last().tags, k, v), ..b.open.last() },
            ),
            ..b
        }
    } else {
        b
    };
    BufferModel { root: SpanModel { tags: tag_insert(b1.root.tags, k, v), ..b1.root }, ..b1 }
}

/// The batch a drain returns: completed spans, then the still-open spans
/// force-closed at `now`, then the root closed at `end_time`.
pub open spec fn spec_drain_batch(b: BufferModel, now: i64, end_time: i64) -> Seq<SpanModel> {
    b.completed + Seq::new(b.open.len(), |i: int| spec_close_span(b.open[i], now)) + seq![
        spec_close_span(b.root, end_time),
    ]
}

/// The buffer after a drain: nothing completed, nothing open.
pub open spec fn spec_drained(b: BufferModel) -> BufferModel {
    BufferModel {
        completed: Seq::<SpanModel>::empty(),
        open: Seq::<SpanModel>::empty(),
        ..b
    }
}

/// Exiting an id that is not on the nesting stack changes nothing.
pub proof fn lemma_remove_last_absent(s: Seq<u64>, x: u64)
    requires
        !s.contains(x),
    ensures
        remove_last_occurrence(s, x) == s,
    decreases s.len(),
{
    if s.len() > 0 {
        assert(s.last() != x) by {
            assert(s[s.len() - 1] == s.last());
        }
        assert(!s.drop_last().contains(x)) by {
            assert(forall|i: int|
                0 <= i < s.drop_last().len() ==> s.drop_last()[i] == #[trigger] s[i]);
        }
        lemma_remove_last_absent(s.drop_last(), x);
        assert(remove_last_occurrence(s, x) =~= s);
    }
}

/// Exit is idempotent on an id that is not on the nesting stack: the whole
/// buffer is unchanged.
pub proof fn lemma_exit_absent_is_noop(b: BufferModel, id: u64)
    requires
        !b.active.contains(id),
    ensures
        spec_exit(b, id) == b,
{
    lemma_remove_last_absent(b.active, id);
}

/// A drain returns one span per still-open span, one per completed span,
/// and the root.
pub proof fn lemma_drain_count(b: BufferModel, now: i64, end_time: i64)
    ensures
        spec_drain_batch(b, now, end_time).len() == b.completed.len() + b.open.len() + 1,
{
}

/// A span started while nothing is entered gets the root as its parent.
pub proof fn lemma_start_unentered_parent_is_root(b: BufferModel, s: SpanModel)
    requires
        b.active.len() == 0,
    ensures
        spec_start(b, s).open.last().parent_id == Some(b.root.id),
{
}

/// After a tag write, the root carries the written value, whatever other
/// keys it already carried.
pub proof fn lemma_add_tag_on_root(b: BufferModel, k: Seq<char>, v: Seq<char>, q: Seq<char>)
    ensures
        crate::tags::tag_get(spec_add_tag(b, k, v).root.tags, q) == if q == k {
            Some(v)
        } else {
            crate::tags::tag_get(b.root.tags, q)
        },
{
    crate::tags::lemma_tag_get_insert(b.root.tags, k, v, q);
}

/// The view of a vector of spans.
pub open spec fn spans_view(v: Seq<Span>) -> Seq<SpanModel> {
    Seq::new(v.len(), |i: int| v[i]@)
}

/// Saturating nanosecond difference.
pub fn elapsed_nanos(now: i64, start: i64) -> (r: i64)
    ensures
        r == spec_elapsed(now, start),
{
    match now.checked_sub(start) {
        Some(d) => d,
        None => {
            if start < 0 {
                i64::MAX
            } else {
                i64::MIN
            }
        },
    }
}

/// The in-flight state of one trace.
pub struct SpanCollection {
    pub completed_spans: Vec<Span>,
    pub parent_span: Span,
    pub current_spans: Vec<Span>,
    pub entered_spans: Vec<u64>,
}

impl View for SpanCollection {
    type V = BufferModel;

    open spec fn view(&self) -> BufferModel {
        BufferModel {
            completed: spans_view(self.completed_spans@),
            root: self.parent_span@,
            open: spans_view(self.current_spans@),
            active: self.entered_spans@,
        }
    }
}

impl SpanCollection {
    /// A fresh buffer around its synthetic root span.
    pub fn new(parent_span: Span) -> (r: SpanCollection)
        ensures
            r@ == (BufferModel {
                completed: Seq::<SpanModel>::empty(),
                root: parent_span@,
                open: Seq::<SpanModel>::empty(),
                active: Seq::<u64>::empty(),
            }),
    {
        let r = SpanCollection {
            completed_spans: Vec::new(),
            parent_span,
            current_spans: Vec::new(),
            entered_spans: Vec::new(),
        };
        proof {
            assert(r@.completed =~= Seq::<SpanModel>::empty());
            assert(r@.open =~= Seq::<SpanModel>::empty());
        }
        r
    }

    /// The id of the most recently entered span for this trace, if any.
    pub fn current_span_id(&self) -> (r: Option<u64>)
        ensures
            r == spec_current_id(self@),
    {
        let n = self.entered_spans.len();
        if n > 0 {
            Some(self.entered_spans[n - 1])
        } else {
            None
        }
    }

    /// Opens a span: assigns its parent from the nesting stack (or the root)
    /// and appends it to the open list.
    pub fn start_span(&mut self, span: Span)
        ensures
            final(self)@ == spec_start(old(self)@, span@),
    {
        let parent_id = Some(
            match self.current_span_id() {
                Some(id) => id,
                None => self.parent_span.id(),
            },
        );
        self.current_spans.push(Span::new_with_parent_id(parent_id, span));
        proof {
            assert(self@.open =~= spec_start(old(self)@, span@).open);
        }
    }

    /// Index of the most recent open span with this id.
    fn rfind_open(&self, span_id: u64) -> (r: Option<usize>)
        ensures
            match r {
                Some(i) => i == last_index_with_id(self@.open, span_id) && i < self@.open.len(),
                None => last_index_with_id(self@.open, span_id) < 0,
            },
    {
        let mut i = self.current_spans.len();
        while i > 0
            invariant
                i <= self@.open.len(),
                self@.open.len() == self.current_spans@.len(),
                forall|j: int| i <= j < self@.open.len() ==> self@.open[j].id != span_id,
            decreases i,
        {
            i -= 1;
            if self.current_spans[i].id == span_id {
                proof {
                    lemma_last_index_found(self@.open, span_id, i as int);
                }
                return Some(i);
            }
        }
        proof {
            lemma_last_index_absent(self@.open, span_id);
        }
        None
    }

    /// Closes a span: moves its most recent open occurrence to `completed`
    /// with its duration computed; an unknown id is a no-op.
    pub fn end_span(&mut self, nanos: i64, span_id: u64)
        ensures
            final(self)@ == spec_close(old(self)@, nanos, span_id),
    {
        match self.rfind_open(span_id) {
            Some(i) => {
                let span = self.current_spans.remove(i);
                let duration = elapsed_nanos(nanos, span.start());
                self.completed_spans.push(Span::new_with_duration(duration, span));
                proof {
                    assert(self@.open =~= spec_close(old(self)@, nanos, span_id).open);
                    assert(self@.completed =~= spec_close(old(self)@, nanos, span_id).completed);
                }
            },
            None => {},
        }
    }

    /// Marks a span as entered (duplicates permitted).
    pub fn enter_span(&mut self, span_id: u64)
        ensures
            final(self)@ == spec_enter(old(self)@, span_id),
    {
        self.entered_spans.push(span_id);
    }

    /// Removes the most recent occurrence of `span_id` from the nesting
    /// stack; an absent id is a no-op.
    pub fn exit_span(&mut self, span_id: u64)
        ensures
            final(self)@ == spec_exit(old(self)@, span_id),
    {
        let mut i = self.entered_spans.len();
        while i > 0
            invariant
                self == old(self),
                i <= self@.active.len(),
                self@.active.len() == self.entered_spans@.len(),
                forall|j: int| i <= j < self@.active.len() ==> self@.active[j] != span_id,
            decreases i,
        {
            i -= 1;
            if self.entered_spans[i] == span_id {
                proof {
                    lemma_remove_last_found(self@.active, span_id, i as int);
                }
                self.entered_spans.remove(i);
                return ;
            }
        }
        proof {
            assert(forall|j: int| 0 <= j < self@.active.len() ==> self@.active[j] != span_id);
            assert(!self@.active.contains(span_id));
            lemma_remove_last_absent(self@.active, span_id);
        }
    }

    /// Tags the most recently started still-open span (if any) and the root.
    pub fn add_tag(&mut self, key: String, value: String)
        ensures
            final(self)@ == spec_add_tag(old(self)@, key@, value@),
    {
        if self.current_spans.len() > 0 {
            let mut span = self.current_spans.pop().unwrap();
            span.add_tag(key.clone(), value.clone());
            self.current_spans.push(span);
            proof {
                assert(self@.open =~= spec_add_tag(old(self)@, key@, value@).open);
            }
        }
        self.parent_span.add_tag(key, value);
        proof {
            assert(self@.open =~= spec_add_tag(old(self)@, key@, value@).open);
        }
    }

    /// Ends the trace: force-closes every still-open span at `now`, closes
    /// the root at `end_time`, and returns completed spans, force-closed
    /// spans, then the root. The buffer is left empty.
    pub fn drain(&mut self, now: i64, end_time: i64) -> (r: Vec<Span>)
        ensures
            spans_view(r@) == spec_drain_batch(old(self)@, now, end_time),
            final(self)@ == spec_drained(old(self)@),
    {
        let ghost b0 = self@;
        let mut out: Vec<Span> = Vec::new();
        while self.completed_spans.len() > 0
            invariant
                self.parent_span == old(self).parent_span,
                self.current_spans == old(self).current_spans,
                self.entered_spans == old(self).entered_spans,
                spans_view(out@) + spans_view(self.completed_spans@) =~= b0.completed,
                b0 == old(self)@,
            decreases self.completed_spans@.len(),
        {
            let s = self.completed_spans.remove(0);
            out.push(s);
            proof {
                assert(spans_view(out@) + spans_view(self.completed_spans@) =~= b0.completed);
            }
        }
        while self.current_spans.len() > 0
            invariant
                self.parent_span == old(self).parent_span,
                self.entered_spans == old(self).entered_spans,
                self.completed_spans@.len() == 0,
                b0 == old(self)@,
                b0.open.len() >= self.current_spans@.len(),
                spans_view(self.current_spans@) =~= b0.open.skip(
                    b0.open.len() - self.current_spans@.len() as int,
                ),
                spans_view(out@) =~= b0.completed + Seq::new(
                    (b0.open.len() - self.current_spans@.len()) as nat,
                    |i: int| spec_close_span(b0.open[i], now),
                ),
            decreases self.current_spans@.len(),
        {
            let ghost pre = self.current_spans@;
            let ghost done = b0.open.len() - pre.len();
            let s = self.current_spans.remove(0);
            proof {
                assert(s@ == spans_view(pre)[0]);
                assert(spans_view(pre)[0] == b0.open.skip(done)[0]);
                assert(b0.open.skip(done)[0] == b0.open[done]);
            }
            let duration = elapsed_nanos(now, s.start());
            let closed = Span::new_with_duration(duration, s);
            let ghost outpre = out@;
            proof {
                assert(closed@ == spec_close_span(b0.open[done], now));
            }
            out.push(closed);
            proof {
                assert forall|j: int| 0 <= j < self.current_spans@.len() implies spans_view(
                    self.current_spans@,
                )[j] == b0.open[done + 1 + j] by {
                    assert(self.current_spans@[j] == pre[j + 1]);
                    assert(spans_view(pre)[j + 1] == b0.open.skip(done)[j + 1]);
                    assert(b0.open.skip(done)[j + 1] == b0.open[done + 1 + j]);
                }
                assert(spans_view(self.current_spans@) =~= b0.open.skip(
                    b0.open.len() - self.current_spans@.len() as int,
                ));
                let ghost n = b0.completed.len() as int;
                assert(spans_view(outpre).len() == outpre.len());
                assert(spans_view(outpre).len() == n + done);
                assert(outpre.len() == n + done);
                assert(out@.len() == n + done + 1);
                assert forall|j: int| 0 <= j < spans_view(out@).len() implies spans_view(out@)[j]
                    == (b0.completed + Seq::new(
                    (done + 1) as nat,
                    |i: int| spec_close_span(b0.open[i], now),
                ))[j] by {
                    if j < n + done {
                        assert(out@[j] == outpre[j]);
                        assert(spans_view(outpre)[j] == (b0.completed + Seq::new(
                            done as nat,
                            |i: int| spec_close_span(b0.open[i], now),
                        ))[j]);
                        if j >= n {
                            assert((b0.completed + Seq::new(
                                done as nat,
                                |i: int| spec_close_span(b0.open[i], now),
                            ))[j] == spec_close_span(b0.open[j - n], now));
                        }
                    } else {
                        assert(j == n + done);
                        assert(out@[j]@ == spec_close_span(b0.open[done], now));
                    }
                }
                assert(spans_view(out@) =~= b0.completed + Seq::new(
                    (b0.open.len() - self.current_spans@.len()) as nat,
                    |i: int| spec_close_span(b0.open[i], now),
                ));
            }
        }
        let root = self.parent_span.duplicate();
        let root_duration = elapsed_nanos(end_time, root.start());
        out.push(Span::new_with_duration(root_duration, root));
        proof {
            assert(spans_view(out@) =~= spec_drain_batch(b0, now, end_time));
            assert(self@.completed =~= Seq::<SpanModel>::empty());
            assert(self@.open =~= Seq::<SpanModel>::empty());
        }
        out
    }
}

/// If position `i` holds the id and nothing later does, `i` is the most
/// recent index with that id.
proof fn lemma_last_index_found(s: Seq<SpanModel>, id: u64, i: int)
    requires
        0 <= i < s.len(),
        s[i].id == id,
        forall|j: int| i < j < s.len() ==> s[j].id != id,
    ensures
        last_index_with_id(s, id) == i,
    decreases s.len(),
{
    if i == s.len() - 1 {
    } else {
        lemma_last_index_found(s.drop_last(), id, i);
    }
}

proof fn lemma_last_index_absent(s: Seq<SpanModel>, id: u64)
    requires
        forall|j: int| 0 <= j < s.len() ==> s[j].id != id,
    ensures
        last_index_with_id(s, id) < 0,
    decreases s.len(),
{
    if s.len() > 0 {
        lemma_last_index_absent(s.drop_last(), id);
    }
}

/// If position `i` holds the id and nothing later does, removing the most
/// recent occurrence removes exactly position `i`.
proof fn lemma_remove_last_found(s: Seq<u64>, x: u64, i: int)
    requires
        0 <= i < s.len(),
        s[i] == x,
        forall|j: int| i < j < s.len() ==> s[j] != x,
    ensures
        remove_last_occurrence(s, x) == s.remove(i),
    decreases s.len(),
{
    if i == s.len() - 1 {
        assert(remove_last_occurrence(s, x) =~= s.remove(i));
    } else {
        lemma_remove_last_found(s.drop_last(), x, i);
        assert(remove_last_occurrence(s, x) =~= s.remove(i));
    }
}

} // verus!
