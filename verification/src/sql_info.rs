//! Optional SQL annotations carried by a span and copied into the output
//! record's `meta` table.

use vstd::prelude::*;

verus! {

/// The mathematical content of a `SqlInfo`.
pub ghost struct SqlModel {
    pub query: Seq<char>,
    pub rows: Seq<char>,
    pub db: Seq<char>,
}

/// SQL statement details attached to a span.
pub struct SqlInfo {
    pub query: String,
    pub rows: String,
    pub db: String,
}

impl View for SqlInfo {
    type V = SqlModel;

    open spec fn view(&self) -> SqlModel {
        SqlModel { query: self.query@, rows: self.rows@, db: self.db@ }
    }
}

impl SqlInfo {
    pub fn new(query: String, rows: String, db: String) -> (r: SqlInfo)
        ensures
            r@ == (SqlModel { query: query@, rows: rows@, db: db@ }),
    {
        SqlInfo { query, rows, db }
    }

    pub fn query(&self) -> (r: &str)
        ensures
            r@ == self@.query,
    {
        self.query.as_str()
    }

    pub fn rows(&self) -> (r: &str)
        ensures
            r@ == self@.rows,
    {
        self.rows.as_str()
    }

    pub fn db(&self) -> (r: &str)
        ensures
            r@ == self@.db,
    {
        self.db.as_str()
    }

    /// A value-equal copy.
    pub fn duplicate(&self) -> (r: SqlInfo)
        ensures
            r@ == self@,
    {
        SqlInfo { query: self.query.clone(), rows: self.rows.clone(), db: self.db.clone() }
    }
}

} // verus!
