//! Collects the fields of one instrumentation event into a tag table. The
//! adapter layer feeds it one named value at a time and then takes the whole
//! table.

use crate::tags::{tag_get, tag_insert, tag_remove, TagMap, TagSeq};
use vstd::prelude::*;

verus! {

/// A field collector: empty until the first value arrives.
pub struct HashMapVisitor {
    pub fields: Option<TagMap>,
}

impl View for HashMapVisitor {
    type V = Option<TagSeq>;

    open spec fn view(&self) -> Option<TagSeq> {
        match self.fields {
            Some(ref m) => Some(m@),
            None => None,
        }
    }
}

impl Default for HashMapVisitor {
    /// No fields collected yet.
    fn default() -> (r: HashMapVisitor)
        ensures
            r@ is None,
    {
        HashMapVisitor { fields: None }
    }
}

impl HashMapVisitor {
    /// Hands out everything collected so far and resets the collector.
    pub fn take(&mut self) -> (r: TagMap)
        ensures
            final(self)@ is None,
            r@ == match old(self)@ {
                Some(m) => m,
                None => Seq::<(Seq<char>, Seq<char>)>::empty(),
            },
    {
        match self.fields.take() {
            Some(m) => m,
            None => TagMap::new(),
        }
    }

    /// Removes one collected field and returns its value.
    pub fn remove(&mut self, key: &str) -> (r: Option<String>)
        ensures
            match old(self)@ {
                Some(m) => {
                    &&& final(self)@ == Some(tag_remove(m, key@))
                    &&& match r {
                        Some(v) => tag_get(m, key@) == Some(v@),
                        None => tag_get(m, key@) is None,
                    }
                },
                None => final(self)@ is None && r is None,
            },
    {
        match &mut self.fields {
            Some(fields) => fields.remove(key),
            None => None,
        }
    }

    /// Records one field, last write winning per key.
    pub fn add_value(&mut self, name: String, value: String)
        ensures
            final(self)@ == Some(
                match old(self)@ {
                    Some(m) => tag_insert(m, name@, value@),
                    None => seq![(name@, value@)],
                },
            ),
    {
        match &mut self.fields {
            Some(fields) => {
                fields.insert(name, value);
            },
            None => {
                let mut m = TagMap::new();
                m.insert(name, value);
                proof {
                    assert(m@ =~= seq![(name@, value@)]);
                }
                self.fields = Some(m);
            },
        }
    }
}

} // verus!
