//! The span value type: one timed unit of work within a trace, and the
//! `NewSpanData` message that announces it. Times are nanoseconds since the
//! Unix epoch; durations are nanoseconds.

use crate::sql_info::{SqlInfo, SqlModel};
use crate::tags::{tag_insert, TagMap, TagSeq};
use vstd::prelude::*;

verus! {

/// The mathematical content of a `Span`.
pub ghost struct SpanModel {
    pub id: u64,
    pub trace_id: u64,
    pub name: Seq<char>,
    pub resource: Seq<char>,
    pub parent_id: Option<u64>,
    pub start: i64,
    pub duration: i64,
    pub sql: Option<SqlModel>,
    pub tags: TagSeq,
}

/// One span: identity, timing, and tags.
pub struct Span {
    pub id: u64,
    pub trace_id: u64,
    pub name: String,
    pub resource: String,
    pub parent_id: Option<u64>,
    pub start: i64,
    pub duration: i64,
    pub sql: Option<SqlInfo>,
    pub tags: TagMap,
}

impl View for Span {
    type V = SpanModel;

    open spec fn view(&self) -> SpanModel {
        SpanModel {
            id: self.id,
            trace_id: self.trace_id,
            name: self.name@,
            resource: self.resource@,
            parent_id: self.parent_id,
            start: self.start,
            duration: self.duration,
            sql: match self.sql {
                Some(q) => Some(q@),
                None => None,
            },
            tags: self.tags@,
        }
    }
}

impl Span {
    /// `source`, with the identity and name replaced.
    pub fn new_with_id_name(id: u64, name: String, source: Span) -> (r: Span)
        ensures
            r@ == (SpanModel { id, name: name@, ..source@ }),
    {
        Span { id, name, ..source }
    }

    /// `source`, with the parent replaced.
    pub fn new_with_parent_id(parent_id: Option<u64>, source: Span) -> (r: Span)
        ensures
            r@ == (SpanModel { parent_id, ..source@ }),
    {
        Span { parent_id, ..source }
    }

    /// `source`, with the duration replaced.
    pub fn new_with_duration(duration: i64, source: Span) -> (r: Span)
        ensures
            r@ == (SpanModel { duration, ..source@ }),
    {
        Span { duration, ..source }
    }

    pub fn id(&self) -> (r: u64)
        ensures
            r == self@.id,
    {
        self.id
    }

    pub fn trace_id(&self) -> (r: u64)
        ensures
            r == self@.trace_id,
    {
        self.trace_id
    }

    pub fn name(&self) -> (r: &str)
        ensures
            r@ == self@.name,
    {
        self.name.as_str()
    }

    pub fn resource(&self) -> (r: &str)
        ensures
            r@ == self@.resource,
    {
        self.resource.as_str()
    }

    pub fn parent_id(&self) -> (r: Option<u64>)
        ensures
            r == self@.parent_id,
    {
        self.parent_id
    }

    pub fn start(&self) -> (r: i64)
        ensures
            r == self@.start,
    {
        self.start
    }

    pub fn duration(&self) -> (r: i64)
        ensures
            r == self@.duration,
    {
        self.duration
    }

    pub fn sql(&self) -> (r: Option<&SqlInfo>)
        ensures
            match r {
                Some(q) => self@.sql == Some(q@),
                None => self@.sql is None,
            },
    {
        self.sql.as_ref()
    }

    pub fn tags(&self) -> (r: &TagMap)
        ensures
            r@ == self@.tags,
    {
        &self.tags
    }

    /// Last-write-wins tag update.
    pub fn add_tag(&mut self, key: String, value: String)
        ensures
            final(self)@ == (SpanModel { tags: tag_insert(old(self)@.tags, key@, value@), ..old(
                self,
            )@ }),
    {
        self.tags.insert(key, value);
    }

    /// A span freshly opened from its announcement: no parent, zero
    /// duration, no tags, no SQL.
    pub fn from(data: NewSpanData) -> (r: Span)
        ensures
            r@ == (SpanModel {
                id: data@.id,
                trace_id: data@.trace_id,
                name: data@.name,
                resource: data@.resource,
                parent_id: None::<u64>,
                start: data@.start,
                duration: 0,
                sql: None::<SqlModel>,
                tags: Seq::<(Seq<char>, Seq<char>)>::empty(),
            }),
    {
        let r = Span {
            id: data.id,
            trace_id: data.trace_id,
            name: data.name,
            resource: data.resource,
            parent_id: None,
            start: data.start,
            duration: 0,
            sql: None,
            tags: TagMap::new(),
        };
        r
    }

    /// A value-equal copy.
    pub fn duplicate(&self) -> (r: Span)
        ensures
            r@ == self@,
    {
        Span {
            id: self.id,
            trace_id: self.trace_id,
            name: self.name.clone(),
            resource: self.resource.clone(),
            parent_id: self.parent_id,
            start: self.start,
            duration: self.duration,
            sql: match &self.sql {
                Some(q) => Some(q.duplicate()),
                None => None,
            },
            tags: self.tags.duplicate(),
        }
    }
}

/// The mathematical content of a `NewSpanData`.
pub ghost struct NewSpanModel {
    pub trace_id: u64,
    pub id: u64,
    pub name: Seq<char>,
    pub resource: Seq<char>,
    pub start: i64,
}

/// The announcement of a new span, stamped with the wall clock at creation.
pub struct NewSpanData {
    pub trace_id: u64,
    pub id: u64,
    pub name: String,
    pub resource: String,
    pub start: i64,
}

impl View for NewSpanData {
    type V = NewSpanModel;

    open spec fn view(&self) -> NewSpanModel {
        NewSpanModel {
            trace_id: self.trace_id,
            id: self.id,
            name: self.name@,
            resource: self.resource@,
            start: self.start,
        }
    }
}

impl NewSpanData {
    /// Stamps the announcement with the current wall clock; the clock's
    /// reading is unconstrained.
    pub fn new(trace_id: u64, id: u64, name: String, resource: String) -> (r: NewSpanData)
        ensures
            r@.trace_id == trace_id,
            r@.id == id,
            r@.name == name@,
            r@.resource == resource@,
    {
        let start = crate::runtime::now_timestamp_nanos();
        NewSpanData { trace_id, id, name, resource, start }
    }

    /// The same announcement with the start time given by the caller.
    pub fn new_at(trace_id: u64, id: u64, name: String, resource: String, start: i64) -> (r:
        NewSpanData)
        ensures
            r@ == (NewSpanModel { trace_id, id, name: name@, resource: resource@, start }),
    {
        NewSpanData { trace_id, id, name, resource, start }
    }

    pub fn trace_id(&self) -> (r: u64)
        ensures
            r == self@.trace_id,
    {
        self.trace_id
    }

    pub fn id(&self) -> (r: u64)
        ensures
            r == self@.id,
    {
        self.id
    }

    pub fn name(&self) -> (r: &str)
        ensures
            r@ == self@.name,
    {
        self.name.as_str()
    }

    pub fn resource(&self) -> (r: &str)
        ensures
            r@ == self@.resource,
    {
        self.resource.as_str()
    }

    pub fn start(&self) -> (r: i64)
        ensures
            r == self@.start,
    {
        self.start
    }
}

} // verus!
