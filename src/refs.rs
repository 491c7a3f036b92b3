//! Handles that pair a key with the store it belongs to, for walking the
//! graph along references and back-references.

use vstd::prelude::*;
use crate::graphs::{values_view, Graphs, Row, ValueView};
use crate::keys::{Key, KeySet};

verus! {

/// A row together with the store that holds it.
pub struct Ref<'a> {
    graphs: &'a Graphs,
    key: Key,
}

/// A back-reference set together with the store that its keys address.
pub struct RefSet<'a> {
    graphs: &'a Graphs,
    set: &'a KeySet,
}

impl<'a> Ref<'a> {
    pub closed spec fn graphs_spec(&self) -> Graphs {
        *self.graphs
    }

    pub closed spec fn key_spec(&self) -> Key {
        self.key
    }

    /// The store is well formed and the key addresses one of its rows.
    pub open spec fn wf(&self) -> bool {
        self.graphs_spec().wf() && self.graphs_spec().key_valid(self.key_spec())
    }

    pub fn new(graphs: &'a Graphs, key: Key) -> (r: Ref<'a>)
        requires
            graphs.wf(),
            graphs.key_valid(key),
        ensures
            r.wf(),
            r.graphs_spec() == *graphs,
            r.key_spec() == key,
    {
        Ref { graphs, key }
    }

    pub fn key(&self) -> (r: Key)
        ensures
            r == self.key_spec(),
    {
        self.key
    }

    /// The row.
    pub fn deref(&self) -> (r: &'a Row)
        requires
            self.wf(),
        ensures
            values_view(r.values@) == self.graphs_spec().values_of(self.key_spec().table as int, self.key_spec().index as int),
            r.backrefs@.len() == self.graphs_spec().backref_count(self.key_spec().table as int, self.key_spec().index as int),
            forall|b: int| 0 <= b < r.backrefs@.len() ==> (#[trigger] r.backrefs@[b])@ == self.graphs_spec().backref_set(
                self.key_spec().table as int, self.key_spec().index as int, b,
            ),
    {
        self.key.d(self.graphs)
    }

    /// The row that field `field` of this row refers to, through a key or a
    /// present optional key; `None` for any other field value.
    pub fn father(&self, field: usize) -> (r: Option<Ref<'a>>)
        requires
            self.wf(),
            field < self.graphs_spec().values_of(self.key_spec().table as int, self.key_spec().index as int).len(),
        ensures
            match self.graphs_spec().values_of(self.key_spec().table as int, self.key_spec().index as int)[field as int] {
                ValueView::Ref(k) => r is Some && r->Some_0.key_spec() == k,
                ValueView::OptRef(Some(k)) => r is Some && r->Some_0.key_spec() == k,
                _ => r is None,
            },
            match r {
                Some(p) => p.wf() && p.graphs_spec() == self.graphs_spec(),
                None => true,
            },
    {
        let row = self.key.d(self.graphs);
        proof {
            self.graphs.lemma_stored_keys_valid(self.key, field as int);
            assert(row.values@[field as int]@ == values_view(row.values@)[field as int]);
        }
        match &row.values[field] {
            crate::graphs::Value::Ref(k) => Some(Ref { graphs: self.graphs, key: *k }),
            crate::graphs::Value::OptRef(Some(k)) => Some(Ref { graphs: self.graphs, key: *k }),
            _ => None,
        }
    }

    /// The rows that refer to this one through relationship `backref` of its
    /// entity.
    pub fn father_of(&self, backref: usize) -> (r: RefSet<'a>)
        requires
            self.wf(),
            backref < self.graphs_spec().backref_count(self.key_spec().table as int, self.key_spec().index as int),
        ensures
            r@ == self.graphs_spec().backref_set(self.key_spec().table as int, self.key_spec().index as int, backref as int),
    {
        let row = self.key.d(self.graphs);
        RefSet { graphs: self.graphs, set: &row.backrefs[backref] }
    }
}

impl<'a> View for RefSet<'a> {
    type V = Set<Key>;

    closed spec fn view(&self) -> Set<Key> {
        self.set@
    }
}

impl<'a> RefSet<'a> {
    pub fn contains(&self, k: Key) -> (r: bool)
        ensures
            r == self@.contains(k),
    {
        self.set.contains(k)
    }

    /// The members, each once, in no particular order.
    pub fn keys(&self) -> (r: Vec<Key>)
        ensures
            r@.to_set() == self@,
            r@.no_duplicates(),
    {
        self.set.iter()
    }
}

} // verus!
