//! Keys that address rows, and compact sets of them.

use vstd::prelude::*;

verus! {

#[verifier::external_type_specification]
#[verifier::external_body]
pub struct ExSetUsize(tinyset::SetUsize);

/// The indices held by a `tinyset::SetUsize`.
pub uninterp spec fn set_usize_contents(s: tinyset::SetUsize) -> Set<usize>;

/// Relies on `tinyset::SetUsize::new`: a new set is empty.
#[verifier::external_body]
fn set_usize_new() -> (r: tinyset::SetUsize)
    ensures
        set_usize_contents(r) == Set::<usize>::empty(),
{
    tinyset::SetUsize::new()
}

/// Relies on `tinyset::SetUsize::insert`: adds the element and reports whether
/// it was absent before.
#[verifier::external_body]
fn set_usize_insert(s: &mut tinyset::SetUsize, e: usize) -> (r: bool)
    ensures
        set_usize_contents(*final(s)) == set_usize_contents(*old(s)).insert(e),
        r == !set_usize_contents(*old(s)).contains(e),
{
    s.insert(e)
}

/// Relies on `tinyset::SetUsize::contains`: membership test.
#[verifier::external_body]
fn set_usize_contains(s: &tinyset::SetUsize, e: usize) -> (r: bool)
    ensures
        r == set_usize_contents(*s).contains(e),
{
    s.contains(e)
}

/// Relies on `tinyset::SetUsize::iter`: visits every element once.
#[verifier::external_body]
fn set_usize_elements(s: &tinyset::SetUsize) -> (r: Vec<usize>)
    ensures
        r@.to_set() == set_usize_contents(*s),
        r@.no_duplicates(),
{
    s.iter().collect()
}

/// A stable handle to a row: the table it belongs to and its position there.
#[derive(Clone, Copy, PartialEq, Eq, Structural, Hash, Debug)]
pub struct Key {
    pub table: usize,
    pub index: usize,
}

impl Key {
    pub fn new(table: usize, index: usize) -> (r: Key)
        ensures
            r == (Key { table, index }),
    {
        Key { table, index }
    }
}

/// An unordered, duplicate-free set of keys of one table.
pub struct KeySet {
    table: usize,
    set: tinyset::SetUsize,
}

impl View for KeySet {
    type V = Set<Key>;

    closed spec fn view(&self) -> Set<Key> {
        Set::new(|k: Key| k.table == self.table && set_usize_contents(self.set).contains(k.index))
    }
}

impl KeySet {
    /// The table whose keys this set holds.
    pub closed spec fn table_spec(&self) -> usize {
        self.table
    }

    /// An empty set for keys of `table`.
    pub fn new(table: usize) -> (r: KeySet)
        ensures
            r@ == Set::<Key>::empty(),
            r.table_spec() == table,
    {
        let r = KeySet { table, set: set_usize_new() };
        assert(r@ =~= Set::<Key>::empty());
        r
    }

    /// The table whose keys this set holds.
    pub fn table(&self) -> (r: usize)
        ensures
            r == self.table_spec(),
    {
        self.table
    }

    /// Adds `v`, returning whether it was absent.
    pub fn insert(&mut self, v: Key) -> (r: bool)
        requires
            v.table == old(self).table_spec(),
        ensures
            final(self)@ == old(self)@.insert(v),
            final(self).table_spec() == old(self).table_spec(),
            r == !old(self)@.contains(v),
    {
        let r = set_usize_insert(&mut self.set, v.index);
        assert(self@ =~= old(self)@.insert(v));
        r
    }

    /// Whether `v` is a member.
    pub fn contains(&self, v: Key) -> (r: bool)
        ensures
            r == self@.contains(v),
    {
        if v.table != self.table {
            false
        } else {
            set_usize_contains(&self.set, v.index)
        }
    }

    /// The members, each once, in no particular order.
    pub fn iter(&self) -> (r: Vec<Key>)
        ensures
            r@.to_set() == self@,
            r@.no_duplicates(),
    {
        let idx = set_usize_elements(&self.set);
        let mut out: Vec<Key> = Vec::new();
        let mut i: usize = 0;
        while i < idx.len()
            invariant
                i <= idx@.len(),
                out@.len() == i,
                forall|j: int| 0 <= j < i ==> out@[j] == (Key { table: self.table, index: idx@[j] }),
            decreases idx@.len() - i,
        {
            out.push(Key { table: self.table, index: idx[i] });
            i += 1;
        }
        proof {
            assert forall|k: Key| out@.to_set().contains(k) <==> self@.contains(k) by {
                if out@.to_set().contains(k) {
                    let j = choose|j: int| 0 <= j < out@.len() && out@[j] == k;
                    assert(idx@.to_set().contains(idx@[j]));
                }
                if self@.contains(k) {
                    assert(idx@.to_set().contains(k.index));
                    let j = choose|j: int| 0 <= j < idx@.len() && idx@[j] == k.index;
                    assert(out@[j] == k);
                }
            }
            assert(out@.to_set() =~= self@);
            assert forall|a: int, b: int| 0 <= a < out@.len() && 0 <= b < out@.len() && a != b implies out@[a] != out@[b] by {
                assert(idx@[a] != idx@[b]);
            }
        }
        out
    }
}

} // verus!
