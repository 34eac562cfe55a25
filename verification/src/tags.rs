//! An insertion-ordered string-to-string table with last-write-wins keys.
//! It stands in for a hash map wherever span tags travel: insertion order is
//! kept, so the wire encoding of a span is a deterministic function of the
//! operations that built it.

use vstd::prelude::*;

verus! {

/// The mathematical content of a tag table: key/value pairs in insertion
/// order.
pub type TagSeq = Seq<(Seq<char>, Seq<char>)>;

/// Value of the first entry with key `k`, if any.
pub open spec fn tag_get(s: TagSeq, k: Seq<char>) -> Option<Seq<char>>
    decreases s.len(),
{
    if s.len() == 0 {
        None
    } else if s[0].0 == k {
        Some(s[0].1)
    } else {
        tag_get(s.drop_first(), k)
    }
}

/// Last-write-wins insertion: an existing key keeps its position and takes
/// the new value; a new key is appended.
pub open spec fn tag_insert(s: TagSeq, k: Seq<char>, v: Seq<char>) -> TagSeq
    decreases s.len(),
{
    if s.len() == 0 {
        seq![(k, v)]
    } else if s[0].0 == k {
        seq![(k, v)] + s.drop_first()
    } else {
        seq![s[0]] + tag_insert(s.drop_first(), k, v)
    }
}

/// Removal of the first entry with key `k`.
pub open spec fn tag_remove(s: TagSeq, k: Seq<char>) -> TagSeq
    decreases s.len(),
{
    if s.len() == 0 {
        s
    } else if s[0].0 == k {
        s.drop_first()
    } else {
        seq![s[0]] + tag_remove(s.drop_first(), k)
    }
}

/// Insertion makes `k` map to `v` and leaves every other key alone.
pub proof fn lemma_tag_get_insert(s: TagSeq, k: Seq<char>, v: Seq<char>, q: Seq<char>)
    ensures
        tag_get(tag_insert(s, k, v), q) == if q == k {
            Some(v)
        } else {
            tag_get(s, q)
        },
    decreases s.len(),
{
    if s.len() == 0 {
        let ins = tag_insert(s, k, v);
        assert(ins == seq![(k, v)]);
        assert(ins[0] == (k, v));
        assert(ins.drop_first() =~= Seq::<(Seq<char>, Seq<char>)>::empty());
        if q == k {
            assert(tag_get(ins, q) == Some(v));
        } else {
            assert(tag_get(ins, q) == tag_get(ins.drop_first(), q));
            assert(tag_get(ins.drop_first(), q) is None);
        }
    } else if s[0].0 == k {
        let ins = tag_insert(s, k, v);
        assert(ins == seq![(k, v)] + s.drop_first());
        assert(ins[0] == (k, v));
        assert(ins.drop_first() =~= s.drop_first());
        if q == k {
            assert(tag_get(ins, q) == Some(v));
        } else {
            assert(tag_get(ins, q) == tag_get(s.drop_first(), q));
            assert(tag_get(s, q) == tag_get(s.drop_first(), q));
        }
    } else {
        lemma_tag_get_insert(s.drop_first(), k, v, q);
        let ins = tag_insert(s, k, v);
        assert(ins == seq![s[0]] + tag_insert(s.drop_first(), k, v));
        assert(ins[0] == s[0]);
        assert(ins.drop_first() =~= tag_insert(s.drop_first(), k, v));
        if q == s[0].0 {
            assert(tag_get(ins, q) == Some(s[0].1));
            assert(tag_get(s, q) == Some(s[0].1));
        } else {
            assert(tag_get(ins, q) == tag_get(tag_insert(s.drop_first(), k, v), q));
            assert(tag_get(s, q) == tag_get(s.drop_first(), q));
        }
    }
}

/// No key occurs twice. Every table built by `tag_insert` has this shape.
pub open spec fn tag_keys_unique(s: TagSeq) -> bool {
    forall|i: int, j: int| 0 <= i < j < s.len() ==> (#[trigger] s[i]).0 != (#[trigger] s[j]).0
}

/// A key occurs in the table exactly when `tag_get` finds it.
pub proof fn lemma_tag_get_exists(s: TagSeq, k: Seq<char>)
    ensures
        (tag_get(s, k) is Some) <==> exists|i: int| 0 <= i < s.len() && (#[trigger] s[i]).0 == k,
    decreases s.len(),
{
    if s.len() == 0 {
    } else if s[0].0 == k {
    } else {
        lemma_tag_get_exists(s.drop_first(), k);
        if tag_get(s, k) is Some {
            let i = choose|i: int| 0 <= i < s.drop_first().len() && (#[trigger] s.drop_first()[
                i
            ]).0 == k;
            assert(s[i + 1].0 == k);
        }
        if exists|i: int| 0 <= i < s.len() && (#[trigger] s[i]).0 == k {
            let i = choose|i: int| 0 <= i < s.len() && (#[trigger] s[i]).0 == k;
            assert(i >= 1);
            assert(s.drop_first()[i - 1].0 == k);
        }
    }
}

/// Insertion keeps keys unique.
pub proof fn lemma_tag_insert_unique(s: TagSeq, k: Seq<char>, v: Seq<char>)
    requires
        tag_keys_unique(s),
    ensures
        tag_keys_unique(tag_insert(s, k, v)),
    decreases s.len(),
{
    let ins = tag_insert(s, k, v);
    if s.len() == 0 {
    } else if s[0].0 == k {
        assert forall|i: int, j: int| 0 <= i < j < ins.len() implies (#[trigger] ins[i]).0 != (
        #[trigger] ins[j]).0 by {
            assert(ins[j] == s[j]);
            if i == 0 {
                assert(s[0].0 != s[j].0);
            } else {
                assert(ins[i] == s[i]);
            }
        }
    } else {
        assert(tag_keys_unique(s.drop_first())) by {
            assert(forall|i: int, j: int|
                0 <= i < j < s.drop_first().len() ==> (#[trigger] s.drop_first()[i],
                #[trigger] s.drop_first()[j]) == (s[i + 1], s[j + 1]));
        }
        lemma_tag_insert_unique(s.drop_first(), k, v);
        let rec = tag_insert(s.drop_first(), k, v);
        lemma_tag_get_exists(s.drop_first(), s[0].0);
        assert(tag_get(s.drop_first(), s[0].0) is None) by {
            lemma_tag_get_exists_helper(s);
        }
        lemma_tag_get_insert(s.drop_first(), k, v, s[0].0);
        lemma_tag_get_exists(rec, s[0].0);
        assert forall|i: int, j: int| 0 <= i < j < ins.len() implies (#[trigger] ins[i]).0 != (
        #[trigger] ins[j]).0 by {
            if i == 0 {
                assert(ins[j] == rec[j - 1]);
                assert(!(exists|q: int| 0 <= q < rec.len() && (#[trigger] rec[q]).0 == s[0].0));
            } else {
                assert(ins[i] == rec[i - 1]);
                assert(ins[j] == rec[j - 1]);
            }
        }
    }
}

/// In a duplicate-free table the head key does not recur in the tail.
proof fn lemma_tag_get_exists_helper(s: TagSeq)
    requires
        tag_keys_unique(s),
        s.len() > 0,
    ensures
        !(exists|i: int| 0 <= i < s.drop_first().len() && (#[trigger] s.drop_first()[i]).0 == s[0].0),
{
    assert forall|i: int| 0 <= i < s.drop_first().len() implies (#[trigger] s.drop_first()[i]).0
        != s[0].0 by {
        assert(s.drop_first()[i] == s[i + 1]);
        assert(s[0].0 != s[i + 1].0);
    }
}

/// An insertion-ordered key/value table with last-write-wins keys.
pub struct TagMap {
    pub entries: Vec<(String, String)>,
}

impl View for TagMap {
    type V = TagSeq;

    open spec fn view(&self) -> TagSeq {
        Seq::new(self.entries@.len(), |i: int| (self.entries@[i].0@, self.entries@[i].1@))
    }
}

impl TagMap {
    pub fn new() -> (r: TagMap)
        ensures
            r@ == Seq::<(Seq<char>, Seq<char>)>::empty(),
    {
        let r = TagMap { entries: Vec::new() };
        proof {
            assert(r@ =~= Seq::<(Seq<char>, Seq<char>)>::empty());
        }
        r
    }

    pub fn len(&self) -> (r: usize)
        ensures
            r == self@.len(),
    {
        self.entries.len()
    }

    /// Index of the first entry whose key equals `k`.
    fn find_index(&self, k: &str) -> (r: Option<usize>)
        ensures
            match r {
                Some(i) => {
                    &&& 0 <= i < self@.len()
                    &&& self@[i as int].0 == k@
                    &&& forall|j: int| 0 <= j < i ==> self@[j].0 != k@
                },
                None => forall|j: int| 0 <= j < self@.len() ==> self@[j].0 != k@,
            },
    {
        let mut i: usize = 0;
        let n = self.entries.len();
        while i < n
            invariant
                n == self@.len(),
                0 <= i <= n,
                forall|j: int| 0 <= j < i ==> self@[j].0 != k@,
            decreases n - i,
        {
            if crate::strutil::str_eq(self.entries[i].0.as_str(), k) {
                return Some(i);
            }
            i += 1;
        }
        None
    }

    /// Value of the first entry with key `k`, if any.
    pub fn get(&self, k: &str) -> (r: Option<&String>)
        ensures
            match r {
                Some(v) => tag_get(self@, k@) == Some(v@),
                None => tag_get(self@, k@) is None,
            },
    {
        match self.find_index(k) {
            Some(i) => {
                proof {
                    lemma_tag_get_at_first_index(self@, k@, i as int);
                }
                Some(&self.entries[i].1)
            },
            None => {
                proof {
                    lemma_tag_get_absent(self@, k@);
                }
                None
            },
        }
    }

    pub fn contains_key(&self, k: &str) -> (r: bool)
        ensures
            r == (tag_get(self@, k@) is Some),
    {
        self.get(k).is_some()
    }

    /// Last-write-wins insertion.
    pub fn insert(&mut self, k: String, v: String)
        ensures
            final(self)@ == tag_insert(old(self)@, k@, v@),
    {
        match self.find_index(k.as_str()) {
            Some(i) => {
                proof {
                    lemma_tag_insert_at_first_index(self@, k@, v@, i as int);
                }
                self.entries.remove(i);
                self.entries.insert(i, (k, v));
                proof {
                    assert(self@ =~= old(self)@.update(i as int, (k@, v@)));
                }
            },
            None => {
                proof {
                    lemma_tag_insert_absent(self@, k@, v@);
                }
                self.entries.push((k, v));
                proof {
                    assert(self@ =~= old(self)@.push((k@, v@)));
                }
            },
        }
    }

    /// Removes the first entry with key `k` and returns its value.
    pub fn remove(&mut self, k: &str) -> (r: Option<String>)
        ensures
            final(self)@ == tag_remove(old(self)@, k@),
            match r {
                Some(v) => tag_get(old(self)@, k@) == Some(v@),
                None => tag_get(old(self)@, k@) is None,
            },
    {
        match self.find_index(k) {
            Some(i) => {
                proof {
                    lemma_tag_get_at_first_index(self@, k@, i as int);
                    lemma_tag_remove_at_first_index(self@, k@, i as int);
                }
                let (_key, value) = self.entries.remove(i);
                proof {
                    assert(self@ =~= old(self)@.remove(i as int));
                }
                Some(value)
            },
            None => {
                proof {
                    lemma_tag_get_absent(self@, k@);
                    lemma_tag_remove_absent(self@, k@);
                }
                None
            },
        }
    }

    /// A value-equal copy.
    pub fn duplicate(&self) -> (r: TagMap)
        ensures
            r@ == self@,
    {
        let mut entries: Vec<(String, String)> = Vec::new();
        let n = self.entries.len();
        let mut i: usize = 0;
        while i < n
            invariant
                n == self.entries@.len(),
                0 <= i <= n,
                entries@.len() == i,
                forall|j: int| 0 <= j < i ==> (entries@[j].0@, entries@[j].1@) == #[trigger] self@[j],
            decreases n - i,
        {
            let k = self.entries[i].0.clone();
            let v = self.entries[i].1.clone();
            entries.push((k, v));
            i += 1;
        }
        let r = TagMap { entries };
        proof {
            assert(r@ =~= self@);
        }
        r
    }
}

/// If the first occurrence of `k` is at `i`, `tag_get` returns that value
/// and `tag_insert` updates that position.
proof fn lemma_tag_get_at_first_index(s: TagSeq, k: Seq<char>, i: int)
    requires
        0 <= i < s.len(),
        s[i].0 == k,
        forall|j: int| 0 <= j < i ==> s[j].0 != k,
    ensures
        tag_get(s, k) == Some(s[i].1),
    decreases s.len(),
{
    if i == 0 {
    } else {
        lemma_tag_get_at_first_index(s.drop_first(), k, i - 1);
    }
}

proof fn lemma_tag_get_absent(s: TagSeq, k: Seq<char>)
    requires
        forall|j: int| 0 <= j < s.len() ==> s[j].0 != k,
    ensures
        tag_get(s, k) is None,
    decreases s.len(),
{
    if s.len() > 0 {
        lemma_tag_get_absent(s.drop_first(), k);
    }
}

proof fn lemma_tag_insert_at_first_index(s: TagSeq, k: Seq<char>, v: Seq<char>, i: int)
    requires
        0 <= i < s.len(),
        s[i].0 == k,
        forall|j: int| 0 <= j < i ==> s[j].0 != k,
    ensures
        tag_insert(s, k, v) == s.update(i, (k, v)),
    decreases s.len(),
{
    if i == 0 {
        assert(tag_insert(s, k, v) =~= s.update(0, (k, v)));
    } else {
        lemma_tag_insert_at_first_index(s.drop_first(), k, v, i - 1);
        assert(tag_insert(s, k, v) =~= s.update(i, (k, v)));
    }
}

pub proof fn lemma_tag_insert_absent(s: TagSeq, k: Seq<char>, v: Seq<char>)
    requires
        forall|j: int| 0 <= j < s.len() ==> s[j].0 != k,
    ensures
        tag_insert(s, k, v) == s.push((k, v)),
    decreases s.len(),
{
    if s.len() == 0 {
        assert(tag_insert(s, k, v) =~= s.push((k, v)));
    } else {
        lemma_tag_insert_absent(s.drop_first(), k, v);
        assert(tag_insert(s, k, v) =~= s.push((k, v)));
    }
}

proof fn lemma_tag_remove_at_first_index(s: TagSeq, k: Seq<char>, i: int)
    requires
        0 <= i < s.len(),
        s[i].0 == k,
        forall|j: int| 0 <= j < i ==> s[j].0 != k,
    ensures
        tag_remove(s, k) == s.remove(i),
    decreases s.len(),
{
    if i == 0 {
        assert(tag_remove(s, k) =~= s.remove(0));
    } else {
        lemma_tag_remove_at_first_index(s.drop_first(), k, i - 1);
        assert(tag_remove(s, k) =~= s.remove(i));
    }
}

proof fn lemma_tag_remove_absent(s: TagSeq, k: Seq<char>)
    requires
        forall|j: int| 0 <= j < s.len() ==> s[j].0 != k,
    ensures
        tag_remove(s, k) == s,
    decreases s.len(),
{
    if s.len() > 0 {
        lemma_tag_remove_absent(s.drop_first(), k);
        assert(tag_remove(s, k) =~= s);
    }
}

} // verus!
