//! The runtime store: one append-only table per entity, with back-reference
//! sets kept up to date on every insert.
//!
//! Rows are never replaced or removed, so a key stays valid, and keeps
//! addressing the same values, for the lifetime of the store; back-reference
//! sets only grow.

use vstd::prelude::*;
use crate::keys::{Key, KeySet};
use crate::schema::{Entity, FieldKind, Schema};

verus! {

/// One field value of a row.
pub enum Value {
    Int(u64),
    Text(String),
    /// The value of a `Reference` field.
    Ref(Key),
    /// The value of an `OptionalReference` field.
    OptRef(Option<Key>),
    /// The value of a `ReferenceSet` field.
    RefSet(KeySet),
}

pub enum ValueView {
    Int(u64),
    Text(Seq<char>),
    Ref(Key),
    OptRef(Option<Key>),
    RefSet(Set<Key>),
}

impl View for Value {
    type V = ValueView;

    open spec fn view(&self) -> ValueView {
        match self {
            Value::Int(n) => ValueView::Int(*n),
            Value::Text(s) => ValueView::Text(s@),
            Value::Ref(k) => ValueView::Ref(*k),
            Value::OptRef(o) => ValueView::OptRef(*o),
            Value::RefSet(s) => ValueView::RefSet(s@),
        }
    }
}

/// The values of a row, viewed.
pub open spec fn values_view(vals: Seq<Value>) -> Seq<ValueView> {
    vals.map_values(|v: Value| v@)
}

/// `v` refers to the row `target`.
pub open spec fn refers(v: ValueView, target: Key) -> bool {
    match v {
        ValueView::Ref(k) => k == target,
        ValueView::OptRef(Some(k)) => k == target,
        ValueView::RefSet(s) => s.contains(target),
        _ => false,
    }
}

/// A stored row: the declared field values, then one back-reference set per
/// relationship that targets the row's entity, in the entity's order.
pub struct Row {
    pub values: Vec<Value>,
    pub backrefs: Vec<KeySet>,
}

/// The store.
pub struct Graphs {
    schema: Schema,
    tables: Vec<Vec<Row>>,
}

impl Graphs {
    pub closed spec fn schema_spec(&self) -> Schema {
        self.schema
    }

    pub open spec fn entity(&self, t: int) -> Entity {
        self.schema_spec().entities_spec()[t]
    }

    pub closed spec fn num_tables(&self) -> int {
        self.tables.len() as int
    }

    /// How many rows table `t` holds.
    pub closed spec fn table_len(&self, t: int) -> int {
        self.tables@[t].len() as int
    }

    /// The field values of row `i` of table `t`.
    pub closed spec fn values_of(&self, t: int, i: int) -> Seq<ValueView> {
        values_view(self.tables@[t]@[i].values@)
    }

    /// How many back-reference sets row `i` of table `t` has.
    pub closed spec fn backref_count(&self, t: int, i: int) -> int {
        self.tables@[t]@[i].backrefs@.len() as int
    }

    /// Back-reference set `b` of row `i` of table `t`.
    pub closed spec fn backref_set(&self, t: int, i: int, b: int) -> Set<Key> {
        self.tables@[t]@[i].backrefs@[b]@
    }

    /// Table counts and lengths fit in a `usize`.
    pub proof fn lemma_len_bounds(&self, t: int)
        ensures
            0 <= self.num_tables() <= usize::MAX,
            0 <= self.table_len(t) <= usize::MAX,
    {
    }

    /// `k` addresses a row of this store.
    pub open spec fn key_valid(&self, k: Key) -> bool {
        k.table < self.num_tables() && k.index < self.table_len(k.table as int)
    }

    spec fn row_wf(&self, t: int, row: Row) -> bool {
        let kinds = self.schema.kinds()[t];
        &&& row.values@.len() == kinds.len()
        &&& forall|j: int| 0 <= j < kinds.len() ==> self.value_fits(kinds[j], #[trigger] row.values@[j])
        &&& row.backrefs@.len() == self.entity(t).backrefs@.len()
        &&& forall|b: int| 0 <= b < row.backrefs@.len()
            ==> (#[trigger] row.backrefs@[b]).table_spec() == self.entity(t).backrefs@[b].source
    }

    /// The schema is well formed, there is one table per entity, and every
    /// row has the shape of its entity.
    pub closed spec fn wf(&self) -> bool {
        &&& self.schema.wf()
        &&& self.tables@.len() == self.schema.entities_spec().len()
        &&& forall|t: int, i: int| 0 <= t < self.tables@.len() && 0 <= i < self.tables@[t]@.len()
            ==> self.row_wf(t, #[trigger] self.tables@[t]@[i])
    }

    /// An empty store for an analysed schema.
    pub fn new(schema: Schema) -> (r: Graphs)
        requires
            schema.wf(),
        ensures
            r.wf(),
            r.schema_spec() == schema,
            r.num_tables() == schema.entities_spec().len(),
            forall|t: int| 0 <= t < r.num_tables() ==> r.table_len(t) == 0,
    {
        let n = schema.entities().len();
        let mut tables: Vec<Vec<Row>> = Vec::new();
        let mut t: usize = 0;
        while t < n
            invariant
                t <= n,
                tables@.len() == t,
                forall|k: int| 0 <= k < t ==> (#[trigger] tables@[k])@.len() == 0,
            decreases n - t,
        {
            tables.push(Vec::new());
            t += 1;
        }
        Graphs { schema, tables }
    }

    /// The schema the store was built for.
    pub fn schema(&self) -> (r: &Schema)
        ensures
            *r == self.schema_spec(),
    {
        &self.schema
    }

    /// How many rows table `table` holds.
    pub fn len(&self, table: usize) -> (r: usize)
        requires
            table < self.num_tables(),
        ensures
            r == self.table_len(table as int),
    {
        self.tables[table].len()
    }
}

impl Graphs {
    /// A relationship `(source, field)` has one slot in its target's list.
    proof fn lemma_slot_unique(&self, e: int, b1: int, b2: int)
        requires
            self.wf(),
            0 <= e < self.num_tables(),
            0 <= b1 < self.entity(e).backrefs@.len(),
            0 <= b2 < self.entity(e).backrefs@.len(),
            self.entity(e).backrefs@[b1].source == self.entity(e).backrefs@[b2].source,
            self.entity(e).backrefs@[b1].field == self.entity(e).backrefs@[b2].field,
        ensures
            b1 == b2,
    {
        assert(crate::schema::backrefs_exact(self.schema.kinds(), e, self.entity(e).backrefs@));
        if b1 < b2 {
            assert(crate::schema::pair_lt(
                self.entity(e).backrefs@[b1].source as int, self.entity(e).backrefs@[b1].field as int,
                self.entity(e).backrefs@[b2].source as int, self.entity(e).backrefs@[b2].field as int,
            ));
        } else if b2 < b1 {
            assert(crate::schema::pair_lt(
                self.entity(e).backrefs@[b2].source as int, self.entity(e).backrefs@[b2].field as int,
                self.entity(e).backrefs@[b1].source as int, self.entity(e).backrefs@[b1].field as int,
            ));
        }
    }

    /// Records `k`, a row whose field `field` of entity `source` refers to
    /// `target`, in the matching back-reference set of `target`.
    fn add_backref(&mut self, target: Key, source: usize, field: usize, k: Key)
        requires
            old(self).wf(),
            old(self).key_valid(target),
            source < old(self).num_tables(),
            field < old(self).schema_spec().kinds()[source as int].len(),
            old(self).schema_spec().kinds()[source as int][field as int].target_spec() == Some(target.table),
            k.table == source,
        ensures
            final(self).wf(),
            final(self).schema_spec() == old(self).schema_spec(),
            final(self).num_tables() == old(self).num_tables(),
            forall|t: int| 0 <= t < old(self).num_tables() ==> #[trigger] final(self).table_len(t) == old(self).table_len(t),
            forall|t: int, i: int| 0 <= t < old(self).num_tables() && 0 <= i < old(self).table_len(t) ==> {
                &&& #[trigger] final(self).values_of(t, i) == old(self).values_of(t, i)
                &&& final(self).backref_count(t, i) == old(self).backref_count(t, i)
            },
            forall|t: int, i: int, b: int| 0 <= t < old(self).num_tables() && 0 <= i < old(self).table_len(t) && 0 <= b < old(self).backref_count(t, i)
                ==> #[trigger] final(self).backref_set(t, i, b) == if t == target.table && i == target.index
                    && old(self).entity(t).backrefs@[b].source == source && old(self).entity(t).backrefs@[b].field == field {
                    old(self).backref_set(t, i, b).insert(k)
                } else {
                    old(self).backref_set(t, i, b)
                },
    {
        let ghost e = target.table as int;
        let brs = &self.schema.entities()[target.table].backrefs;
        assert(crate::schema::backrefs_exact(self.schema.kinds(), e, brs@));
        assert(self.schema.kinds()[source as int][field as int].target_spec() == Some(e as usize));
        let mut b: usize = 0;
        while b < brs.len() && !(brs[b].source == source && brs[b].field == field)
            invariant
                b <= brs@.len(),
                forall|c: int| 0 <= c < b ==> !((#[trigger] brs@[c]).source == source && brs@[c].field == field),
            decreases brs@.len() - b,
        {
            b += 1;
        }
        assert(b < brs@.len()) by {
            let c = choose|c: int| 0 <= c < brs@.len() && (#[trigger] brs@[c]).source == source && brs@[c].field == field;
            assert(!(c < b));
        }
        let ghost old_self = *self;
        assert(self.row_wf(e, self.tables@[e]@[target.index as int]));
        self.tables[target.table][target.index].backrefs[b].insert(k);
        assert forall|t: int, i: int| 0 <= t < self.tables@.len() && 0 <= i < self.tables@[t]@.len()
            implies self.row_wf(t, #[trigger] self.tables@[t]@[i]) by {
            assert(old_self.row_wf(t, old_self.tables@[t]@[i]));
            if t == e && i == target.index {
                let row = self.tables@[t]@[i];
                assert forall|c: int| 0 <= c < row.backrefs@.len() implies
                    (#[trigger] row.backrefs@[c]).table_spec() == self.entity(t).backrefs@[c].source by {
                    assert(old_self.tables@[t]@[i].backrefs@[c].table_spec() == self.entity(t).backrefs@[c].source);
                }
            }
        }
        assert forall|t: int, i: int, c: int| 0 <= t < old_self.num_tables() && 0 <= i < old_self.table_len(t) && 0 <= c < old_self.backref_count(t, i)
            implies #[trigger] self.backref_set(t, i, c) == if t == target.table && i == target.index
                && old_self.entity(t).backrefs@[c].source == source && old_self.entity(t).backrefs@[c].field == field {
                old_self.backref_set(t, i, c).insert(k)
            } else {
                old_self.backref_set(t, i, c)
            } by {
            if t == target.table && i == target.index && old_self.entity(t).backrefs@[c].source == source
                && old_self.entity(t).backrefs@[c].field == field {
                assert(old_self.row_wf(t, old_self.tables@[t]@[i]));
                old_self.lemma_slot_unique(t, c, b as int);
            }
        }
    }
}

/// Back-reference set `b` of row `i` of table `t` is for a field of `table`
/// through which a row with values `vals` refers to that row.
pub open spec fn backref_gains(g: &Graphs, t: int, i: int, b: int, table: int, vals: Seq<ValueView>) -> bool {
    let br = g.entity(t).backrefs@[b];
    br.source == table && refers(vals[br.field as int], Key { table: t as usize, index: i as usize })
}

/// `new` is `old` after inserting a row with values `vals` into `table`,
/// which received key `k`.
pub open spec fn inserted(old: &Graphs, new: &Graphs, table: int, vals: Seq<ValueView>, k: Key) -> bool {
    &&& 0 <= table < old.num_tables()
    &&& k.table == table
    &&& k.index == old.table_len(table)
    &&& new.schema_spec() == old.schema_spec()
    &&& new.num_tables() == old.num_tables()
    &&& forall|t: int| 0 <= t < old.num_tables() ==> #[trigger] new.table_len(t) == old.table_len(t) + if t
        == table {
        1int
    } else {
        0int
    }
    &&& new.values_of(table, k.index as int) == vals
    &&& new.backref_count(table, k.index as int) == old.entity(table).backrefs@.len()
    &&& forall|b: int| 0 <= b < new.backref_count(table, k.index as int)
        ==> #[trigger] new.backref_set(table, k.index as int, b) == Set::<Key>::empty()
    &&& forall|t: int, i: int| 0 <= t < old.num_tables() && 0 <= i < old.table_len(t) ==> {
        &&& #[trigger] new.values_of(t, i) == old.values_of(t, i)
        &&& new.backref_count(t, i) == old.backref_count(t, i)
    }
    &&& forall|t: int, i: int, b: int| 0 <= t < old.num_tables() && 0 <= i < old.table_len(t) && 0 <= b < old.backref_count(t, i)
        ==> #[trigger] new.backref_set(t, i, b) == if backref_gains(old, t, i, b, table, vals) {
            old.backref_set(t, i, b).insert(k)
        } else {
            old.backref_set(t, i, b)
        }
}

/// Like `backref_gains`, counting only the fields before `f`, and those
/// targets of field `f` that are in `part`.
spec fn gains_partial(g: &Graphs, t: int, i: int, b: int, table: int, vals: Seq<ValueView>, f: int, part: Set<Key>) -> bool {
    let br = g.entity(t).backrefs@[b];
    let key = Key { table: t as usize, index: i as usize };
    br.source == table && ((br.field < f && refers(vals[br.field as int], key)) || (br.field == f && part.contains(key)))
}

impl Graphs {
    /// `v` may stand in a new row, in a field of kind `kind`: it has the
    /// field's form, and every key in it addresses a row of the right table.
    pub open spec fn value_fits(&self, kind: FieldKind, v: Value) -> bool {
        match kind {
            FieldKind::Scalar => v is Int || v is Text,
            FieldKind::Reference(t) => match v {
                Value::Ref(k) => k.table == t && self.key_valid(k),
                _ => false,
            },
            FieldKind::OptionalReference(t) => match v {
                Value::OptRef(Some(k)) => k.table == t && self.key_valid(k),
                Value::OptRef(None) => true,
                _ => false,
            },
            FieldKind::ReferenceSet(t) => match v {
                Value::RefSet(s) => s.table_spec() == t && forall|k: Key| #[trigger] s@.contains(k) ==> k.table == t && self.key_valid(k),
                _ => false,
            },
        }
    }

    /// What fits in a store still fits once tables have grown.
    proof fn lemma_fits_grow(&self, other: &Graphs, kind: FieldKind, v: Value)
        requires
            self.value_fits(kind, v),
            other.num_tables() == self.num_tables(),
            forall|t: int| 0 <= t < self.num_tables() ==> #[trigger] other.table_len(t) >= self.table_len(t),
        ensures
            other.value_fits(kind, v),
    {
        match v {
            Value::Ref(k) => {
                assert(other.table_len(k.table as int) >= self.table_len(k.table as int));
            },
            Value::OptRef(Some(k)) => {
                assert(other.table_len(k.table as int) >= self.table_len(k.table as int));
            },
            Value::RefSet(s) => {
                assert forall|k: Key| #[trigger] s@.contains(k) implies k.table == kind->ReferenceSet_0 && other.key_valid(k) by {
                    assert(other.table_len(k.table as int) >= self.table_len(k.table as int));
                }
            },
            _ => {},
        }
    }

    /// `vals` may be inserted as a row of `table`.
    pub open spec fn row_fits(&self, table: int, vals: Seq<Value>) -> bool {
        let kinds = self.schema_spec().kinds()[table];
        &&& vals.len() == kinds.len()
        &&& forall|j: int| 0 <= j < vals.len() ==> self.value_fits(kinds[j], #[trigger] vals[j])
    }

    /// Appends a row to `table` and returns its key. For every field of the
    /// row that refers to a row (through a key, a present optional key, or a
    /// member of a key set), the new key is added to that row's
    /// back-reference set for the field; nothing else changes.
    pub fn insert(&mut self, table: usize, values: Vec<Value>) -> (k: Key)
        requires
            old(self).wf(),
            table < old(self).num_tables(),
            old(self).row_fits(table as int, values@),
        ensures
            final(self).wf(),
            inserted(old(self), final(self), table as int, values_view(values@), k),
    {
        let ghost vals = values_view(values@);
        let k = Key { table, index: self.tables[table].len() };
        let ghost g0 = *self;
        let nf = values.len();
        let mut f: usize = 0;
        while f < nf
            invariant
                self.wf(),
                nf == values@.len(),
                vals == values_view(values@),
                g0.wf(),
                table < g0.num_tables(),
                g0.row_fits(table as int, values@),
                k == (Key { table, index: g0.table_len(table as int) as usize }),
                f <= nf,
                self.schema_spec() == g0.schema_spec(),
                self.num_tables() == g0.num_tables(),
                forall|t: int| 0 <= t < g0.num_tables() ==> #[trigger] self.table_len(t) == g0.table_len(t),
                forall|t: int, i: int| 0 <= t < g0.num_tables() && 0 <= i < g0.table_len(t) ==> {
                    &&& #[trigger] self.values_of(t, i) == g0.values_of(t, i)
                    &&& self.backref_count(t, i) == g0.backref_count(t, i)
                },
                forall|t: int, i: int, b: int| 0 <= t < g0.num_tables() && 0 <= i < g0.table_len(t) && 0 <= b < g0.backref_count(t, i)
                    ==> #[trigger] self.backref_set(t, i, b) == if gains_partial(&g0, t, i, b, table as int, vals, f as int, Set::empty()) {
                        g0.backref_set(t, i, b).insert(k)
                    } else {
                        g0.backref_set(t, i, b)
                    },
            decreases nf - f,
        {
            assert(g0.value_fits(g0.schema_spec().kinds()[table as int][f as int], values@[f as int]));
            assert(vals[f as int] == values@[f as int]@);
            match &values[f] {
                Value::Ref(target) => {
                    self.add_one(*target, table, f, k, Ghost(g0), Ghost(vals));
                },
                Value::OptRef(Some(target)) => {
                    self.add_one(*target, table, f, k, Ghost(g0), Ghost(vals));
                },
                Value::RefSet(set) => {
                    let members = set.iter();
                    let mut j: usize = 0;
                    while j < members.len()
                        invariant
                            self.wf(),
                            vals == values_view(values@),
                            g0.wf(),
                            table < g0.num_tables(),
                            f < values@.len(),
                            g0.value_fits(g0.schema_spec().kinds()[table as int][f as int], values@[f as int]),
                            values@[f as int] is RefSet,
                            g0.row_fits(table as int, values@),
                            members@.to_set() == vals[f as int]->RefSet_0,
                            k == (Key { table, index: g0.table_len(table as int) as usize }),
                            j <= members@.len(),
                            self.schema_spec() == g0.schema_spec(),
                            self.num_tables() == g0.num_tables(),
                            forall|t: int| 0 <= t < g0.num_tables() ==> #[trigger] self.table_len(t) == g0.table_len(t),
                            forall|t: int, i: int| 0 <= t < g0.num_tables() && 0 <= i < g0.table_len(t) ==> {
                                &&& #[trigger] self.values_of(t, i) == g0.values_of(t, i)
                                &&& self.backref_count(t, i) == g0.backref_count(t, i)
                            },
                            forall|t: int, i: int, b: int| 0 <= t < g0.num_tables() && 0 <= i < g0.table_len(t) && 0 <= b < g0.backref_count(t, i)
                                ==> #[trigger] self.backref_set(t, i, b) == if gains_partial(&g0, t, i, b, table as int, vals, f as int, members@.subrange(0, j as int).to_set()) {
                                    g0.backref_set(t, i, b).insert(k)
                                } else {
                                    g0.backref_set(t, i, b)
                                },
                        decreases members@.len() - j,
                    {
                        let target = members[j];
                        assert(members@.to_set().contains(target));
                        let ghost before = *self;
                        proof {
                            assert(members@.subrange(0, j as int + 1).to_set() =~= members@.subrange(0, j as int).to_set().insert(target)) by {
                                assert(members@.subrange(0, j as int + 1) =~= members@.subrange(0, j as int).push(target));
                                members@.subrange(0, j as int).lemma_push_to_set_commute(target);
                            }
                        }
                        self.add_backref(target, table, f, k);
                        proof {
                            let part = members@.subrange(0, j as int).to_set();
                            let part2 = members@.subrange(0, j as int + 1).to_set();
                            assert forall|t: int, i: int, b: int| 0 <= t < g0.num_tables() && 0 <= i < g0.table_len(t) && 0 <= b < g0.backref_count(t, i)
                                implies #[trigger] self.backref_set(t, i, b) == if gains_partial(&g0, t, i, b, table as int, vals, f as int, part2) {
                                    g0.backref_set(t, i, b).insert(k)
                                } else {
                                    g0.backref_set(t, i, b)
                                } by {
                                let hit = t == target.table && i == target.index && g0.entity(t).backrefs@[b].source == table
                                    && g0.entity(t).backrefs@[b].field == f;
                                assert(before.table_len(t) == g0.table_len(t));
                                assert(before.values_of(t, i) == g0.values_of(t, i));
                                assert(before.table_len(t) == g0.table_len(t));
            assert(before.values_of(t, i) == g0.values_of(t, i));
            assert(self.backref_set(t, i, b) == if hit {
                                    before.backref_set(t, i, b).insert(k)
                                } else {
                                    before.backref_set(t, i, b)
                                });
                                assert(before.backref_set(t, i, b) == if gains_partial(&g0, t, i, b, table as int, vals, f as int, part) {
                                    g0.backref_set(t, i, b).insert(k)
                                } else {
                                    g0.backref_set(t, i, b)
                                });
                                g0.lemma_len_bounds(t);
                                let key = Key { table: t as usize, index: i as usize };
                                assert(key.table == t && key.index == i);
                                if hit {
                                    assert(key == target);
                                    assert(part2.contains(key));
                                    assert(g0.backref_set(t, i, b).insert(k).insert(k) =~= g0.backref_set(t, i, b).insert(k));
                                } else if g0.entity(t).backrefs@[b].source == table && g0.entity(t).backrefs@[b].field == f {
                                    assert(key != target);
                                    assert(part2.contains(key) == part.contains(key));
                                }
                            }
                        }
                        j += 1;
                    }
                    proof {
                        assert(members@.subrange(0, members@.len() as int) =~= members@);
                        assert forall|t: int, i: int, b: int| 0 <= t < g0.num_tables() && 0 <= i < g0.table_len(t) && 0 <= b < g0.backref_count(t, i)
                            implies #[trigger] self.backref_set(t, i, b) == if gains_partial(&g0, t, i, b, table as int, vals, f as int + 1, Set::empty()) {
                                g0.backref_set(t, i, b).insert(k)
                            } else {
                                g0.backref_set(t, i, b)
                            } by {
                            assert(gains_partial(&g0, t, i, b, table as int, vals, f as int + 1, Set::empty())
                                == gains_partial(&g0, t, i, b, table as int, vals, f as int, members@.to_set()));
                        }
                    }
                },
                _ => {
                    proof {
                        assert forall|t: int, i: int, b: int| 0 <= t < g0.num_tables() && 0 <= i < g0.table_len(t) && 0 <= b < g0.backref_count(t, i)
                            implies #[trigger] self.backref_set(t, i, b) == if gains_partial(&g0, t, i, b, table as int, vals, f as int + 1, Set::empty()) {
                                g0.backref_set(t, i, b).insert(k)
                            } else {
                                g0.backref_set(t, i, b)
                            } by {
                            let key = Key { table: t as usize, index: i as usize };
                            assert(!refers(vals[f as int], key));
                            assert(gains_partial(&g0, t, i, b, table as int, vals, f as int + 1, Set::empty())
                                == gains_partial(&g0, t, i, b, table as int, vals, f as int, Set::empty()));
                        }
                    }
                },
            }
            f += 1;
        }
        let backrefs = self.empty_backrefs(table);
        let ghost g1 = *self;
        let row = Row { values, backrefs };
        let ghost rv = row;
        self.tables[table].push(row);
        proof {
            let n0 = g0.table_len(table as int);
            assert(self.tables@[table as int]@ == g1.tables@[table as int]@.push(rv));
            assert(g1.tables@[table as int]@.len() == g1.tables@[table as int].len());
            assert(g1.table_len(table as int) == n0);
            assert(self.tables@[table as int]@[n0] == rv);
            assert(self.row_wf(table as int, rv)) by {
                let kinds = self.schema.kinds()[table as int];
                assert forall|t: int| 0 <= t < g0.num_tables() implies #[trigger] self.table_len(t) >= g0.table_len(t) by {
                    assert(g1.table_len(t) == g0.table_len(t));
                }
                assert forall|j: int| 0 <= j < kinds.len() implies self.value_fits(kinds[j], #[trigger] rv.values@[j]) by {
                    assert(g0.value_fits(kinds[j], values@[j]));
                    g0.lemma_fits_grow(self, kinds[j], values@[j]);
                }
            }
            assert forall|t: int, i: int| 0 <= t < self.tables@.len() && 0 <= i < self.tables@[t]@.len()
                implies self.row_wf(t, #[trigger] self.tables@[t]@[i]) by {
                if !(t == table && i == n0) {
                    assert(g1.tables@[t]@.len() == g1.tables@[t].len());
                    assert(self.tables@[t]@.len() == self.tables@[t].len());
                    assert(g1.row_wf(t, g1.tables@[t]@[i]));
                }
            }
            assert(self.values_of(table as int, n0) =~= vals);
            assert forall|t: int, i: int, b: int| 0 <= t < g0.num_tables() && 0 <= i < g0.table_len(t) && 0 <= b < g0.backref_count(t, i)
                implies #[trigger] self.backref_set(t, i, b) == if backref_gains(&g0, t, i, b, table as int, vals) {
                    g0.backref_set(t, i, b).insert(k)
                } else {
                    g0.backref_set(t, i, b)
                } by {
                assert(self.backref_set(t, i, b) == g1.backref_set(t, i, b));
                let br = g0.entity(t).backrefs@[b];
                assert(g0.row_wf(t, g0.tables@[t]@[i]));
                assert(crate::schema::backrefs_exact(g0.schema.kinds(), t, g0.entity(t).backrefs@));
                if br.source == table {
                    assert(br.field < nf);
                }
                assert(gains_partial(&g0, t, i, b, table as int, vals, nf as int, Set::empty())
                    == backref_gains(&g0, t, i, b, table as int, vals));
            }
            assert forall|t: int| 0 <= t < g0.num_tables() implies #[trigger] self.table_len(t) == g0.table_len(t) + if t
                == table {
                1int
            } else {
                0int
            } by {
                assert(g1.table_len(t) == g0.table_len(t));
            }
            assert(self.backref_count(table as int, k.index as int) == g0.entity(table as int).backrefs@.len());
            assert forall|b: int| 0 <= b < self.backref_count(table as int, k.index as int)
                implies #[trigger] self.backref_set(table as int, k.index as int, b) == Set::<Key>::empty() by {
            }
            assert forall|t: int, i: int| 0 <= t < g0.num_tables() && 0 <= i < g0.table_len(t) implies {
                &&& #[trigger] self.values_of(t, i) == g0.values_of(t, i)
                &&& self.backref_count(t, i) == g0.backref_count(t, i)
            } by {
                assert(self.values_of(t, i) == g1.values_of(t, i));
            }
        }
        k
    }

    /// One empty back-reference set for each relationship that targets
    /// `table`.
    fn empty_backrefs(&self, table: usize) -> (r: Vec<KeySet>)
        requires
            self.wf(),
            table < self.num_tables(),
        ensures
            r@.len() == self.entity(table as int).backrefs@.len(),
            forall|c: int| 0 <= c < r@.len() ==> (#[trigger] r@[c]).table_spec() == self.entity(table as int).backrefs@[c].source
                && r@[c]@ == Set::<Key>::empty(),
    {
        let nb = self.schema.entities()[table].backrefs.len();
        let mut backrefs: Vec<KeySet> = Vec::new();
        let mut b: usize = 0;
        while b < nb
            invariant
                nb == self.entity(table as int).backrefs@.len(),
                table < self.num_tables(),
                self.wf(),
                b <= nb,
                backrefs@.len() == b,
                forall|c: int| 0 <= c < b ==> (#[trigger] backrefs@[c]).table_spec() == self.entity(table as int).backrefs@[c].source
                    && backrefs@[c]@ == Set::<Key>::empty(),
            decreases nb - b,
        {
            let source = self.schema.entities()[table].backrefs[b].source;
            backrefs.push(KeySet::new(source));
            b += 1;
        }
        backrefs
    }

    /// Adds `k` to the back-reference set of `target` for field `f` of
    /// `table`, and carries the loop's account of the sets over to `f + 1`.
    fn add_one(&mut self, target: Key, table: usize, f: usize, k: Key, Ghost(g0): Ghost<Graphs>, Ghost(vals): Ghost<Seq<ValueView>>)
        requires
            old(self).wf(),
            g0.wf(),
            table < g0.num_tables(),
            f < vals.len(),
            f < g0.schema_spec().kinds()[table as int].len(),
            g0.schema_spec().kinds()[table as int][f as int].target_spec() == Some(target.table),
            g0.key_valid(target),
            forall|key: Key| refers(vals[f as int], key) <==> key == target,
            k == (Key { table, index: g0.table_len(table as int) as usize }),
            old(self).schema_spec() == g0.schema_spec(),
            old(self).num_tables() == g0.num_tables(),
            forall|t: int| 0 <= t < g0.num_tables() ==> #[trigger] old(self).table_len(t) == g0.table_len(t),
            forall|t: int, i: int| 0 <= t < g0.num_tables() && 0 <= i < g0.table_len(t) ==> {
                &&& #[trigger] old(self).values_of(t, i) == g0.values_of(t, i)
                &&& old(self).backref_count(t, i) == g0.backref_count(t, i)
            },
            forall|t: int, i: int, b: int| 0 <= t < g0.num_tables() && 0 <= i < g0.table_len(t) && 0 <= b < g0.backref_count(t, i)
                ==> #[trigger] old(self).backref_set(t, i, b) == if gains_partial(&g0, t, i, b, table as int, vals, f as int, Set::empty()) {
                    g0.backref_set(t, i, b).insert(k)
                } else {
                    g0.backref_set(t, i, b)
                },
        ensures
            final(self).wf(),
            final(self).schema_spec() == g0.schema_spec(),
            final(self).num_tables() == g0.num_tables(),
            forall|t: int| 0 <= t < g0.num_tables() ==> #[trigger] final(self).table_len(t) == g0.table_len(t),
            forall|t: int, i: int| 0 <= t < g0.num_tables() && 0 <= i < g0.table_len(t) ==> {
                &&& #[trigger] final(self).values_of(t, i) == g0.values_of(t, i)
                &&& final(self).backref_count(t, i) == g0.backref_count(t, i)
            },
            forall|t: int, i: int, b: int| 0 <= t < g0.num_tables() && 0 <= i < g0.table_len(t) && 0 <= b < g0.backref_count(t, i)
                ==> #[trigger] final(self).backref_set(t, i, b) == if gains_partial(&g0, t, i, b, table as int, vals, f as int + 1, Set::empty()) {
                    g0.backref_set(t, i, b).insert(k)
                } else {
                    g0.backref_set(t, i, b)
                },
    {
        let ghost before = *self;
        self.add_backref(target, table, f, k);
        assert forall|t: int, i: int, b: int| 0 <= t < g0.num_tables() && 0 <= i < g0.table_len(t) && 0 <= b < g0.backref_count(t, i)
            implies #[trigger] self.backref_set(t, i, b) == if gains_partial(&g0, t, i, b, table as int, vals, f as int + 1, Set::empty()) {
                g0.backref_set(t, i, b).insert(k)
            } else {
                g0.backref_set(t, i, b)
            } by {
            let hit = t == target.table && i == target.index && g0.entity(t).backrefs@[b].source == table
                && g0.entity(t).backrefs@[b].field == f;
            assert(before.table_len(t) == g0.table_len(t));
            assert(before.values_of(t, i) == g0.values_of(t, i));
            assert(self.backref_set(t, i, b) == if hit {
                before.backref_set(t, i, b).insert(k)
            } else {
                before.backref_set(t, i, b)
            });
            assert(before.backref_set(t, i, b) == if gains_partial(&g0, t, i, b, table as int, vals, f as int, Set::empty()) {
                g0.backref_set(t, i, b).insert(k)
            } else {
                g0.backref_set(t, i, b)
            });
            g0.lemma_len_bounds(t);
            let key = Key { table: t as usize, index: i as usize };
            assert(key.table == t && key.index == i);
            if hit {
                assert(key == target);
                assert(refers(vals[f as int], key));
                assert(g0.backref_set(t, i, b).insert(k).insert(k) =~= g0.backref_set(t, i, b).insert(k));
            } else if g0.entity(t).backrefs@[b].field == f && g0.entity(t).backrefs@[b].source == table {
                assert(key != target);
                assert(!refers(vals[f as int], key));
            }
        }
    }
}

/// Row `i` of `table` holds `vals`, and no later row does.
pub open spec fn is_latest(g: &Graphs, table: int, vals: Seq<ValueView>, i: int) -> bool {
    &&& 0 <= i < g.table_len(table)
    &&& g.values_of(table, i) == vals
    &&& forall|j: int| i < j < g.table_len(table) ==> #[trigger] g.values_of(table, j) != vals
}

/// The key of the most recent row of `table` that holds `vals`, if any.
pub open spec fn latest_match(g: &Graphs, table: int, vals: Seq<ValueView>) -> Option<Key> {
    if exists|i: int| is_latest(g, table, vals, i) {
        Some(Key { table: table as usize, index: (choose|i: int| is_latest(g, table, vals, i)) as usize })
    } else {
        None
    }
}

/// Compares two values; exact unless both are key sets.
fn value_eq(a: &Value, b: &Value) -> (r: bool)
    ensures
        !(a is RefSet) ==> r == (a@ == b@),
{
    match (a, b) {
        (Value::Int(x), Value::Int(y)) => *x == *y,
        (Value::Text(x), Value::Text(y)) => *x == *y,
        (Value::Ref(x), Value::Ref(y)) => *x == *y,
        (Value::OptRef(x), Value::OptRef(y)) => match (x, y) {
            (Some(p), Some(q)) => *p == *q,
            (None, None) => true,
            _ => false,
        },
        _ => false,
    }
}

/// Compares two rows of values whose first holds no key set.
fn values_eq(a: &Vec<Value>, b: &Vec<Value>) -> (r: bool)
    requires
        forall|j: int| 0 <= j < a@.len() ==> !(#[trigger] a@[j] is RefSet),
    ensures
        r == (values_view(a@) == values_view(b@)),
{
    if a.len() != b.len() {
        assert(values_view(a@).len() != values_view(b@).len());
        return false;
    }
    let mut j: usize = 0;
    while j < a.len()
        invariant
            a@.len() == b@.len(),
            j <= a@.len(),
            forall|k: int| 0 <= k < a@.len() ==> !(#[trigger] a@[k] is RefSet),
            forall|k: int| 0 <= k < j ==> (#[trigger] a@[k])@ == b@[k]@,
        decreases a@.len() - j,
    {
        if !value_eq(&a[j], &b[j]) {
            assert(values_view(a@)[j as int] != values_view(b@)[j as int]);
            return false;
        }
        j += 1;
    }
    assert(values_view(a@) =~= values_view(b@));
    true
}

impl Graphs {
    /// The key of the most recent row of the plain table `table` whose values
    /// equal `values`, or `None` when no row does.
    pub fn lookup(&self, table: usize, values: &Vec<Value>) -> (r: Option<Key>)
        requires
            self.wf(),
            table < self.num_tables(),
            !self.entity(table as int).linked_spec(),
        ensures
            r == latest_match(self, table as int, values_view(values@)),
    {
        let ghost vals = values_view(values@);
        let rows = &self.tables[table];
        let mut i: usize = rows.len();
        while i > 0
            invariant
                self.wf(),
                table < self.num_tables(),
                rows == self.tables@[table as int],
                vals == values_view(values@),
                !self.entity(table as int).linked_spec(),
                i <= self.table_len(table as int),
                forall|j: int| i <= j < self.table_len(table as int) ==> #[trigger] self.values_of(table as int, j) != vals,
            decreases i,
        {
            i -= 1;
            let row = &rows[i];
            proof {
                assert(*row == self.tables@[table as int]@[i as int]);
                assert(self.values_of(table as int, i as int) == values_view(row.values@));
                assert(self.row_wf(table as int, *row));
                let kinds = self.schema.kinds()[table as int];
                assert forall|j: int| 0 <= j < row.values@.len() implies !(#[trigger] row.values@[j] is RefSet) by {
                    assert(self.value_fits(kinds[j], row.values@[j]));
                    let en = self.entity(table as int);
                    assert(kinds[j] == en.fields@[j].kind);
                    if en.fields@[j].kind.target_spec().is_some() {
                        assert(en.linked_spec());
                    }
                }
            }
            let same = values_eq(&row.values, values);
            assert(same == (self.values_of(table as int, i as int) == vals));
            assert((i as int) < self.table_len(table as int));
            if same {
                assert(is_latest(self, table as int, vals, i as int));
                let ghost c = choose|c: int| is_latest(self, table as int, vals, c);
                assert(c == i) by {
                    if c < i {
                        assert(self.values_of(table as int, i as int) == vals);
                    } else if c > i {
                        assert(self.values_of(table as int, c) == vals);
                    }
                }
                return Some(Key { table, index: i });
            }
        }
        assert(!exists|c: int| is_latest(self, table as int, vals, c)) by {
            if exists|c: int| is_latest(self, table as int, vals, c) {
                let c = choose|c: int| is_latest(self, table as int, vals, c);
                assert(self.values_of(table as int, c) == vals);
            }
        }
        None
    }

    /// The back-reference set named `name` of the row `k`: the first of its
    /// entity's relationships with that name.
    pub fn backrefs_of(&self, k: Key, name: &str) -> (r: Option<&KeySet>)
        requires
            self.wf(),
            self.key_valid(k),
        ensures
            match r {
                Some(s) => exists|b: int| {
                    &&& 0 <= b < self.entity(k.table as int).backrefs@.len()
                    &&& (#[trigger] self.entity(k.table as int).backrefs@[b]).name@ == name@
                    &&& forall|c: int| 0 <= c < b ==> (#[trigger] self.entity(k.table as int).backrefs@[c]).name@ != name@
                    &&& s@ == self.backref_set(k.table as int, k.index as int, b)
                },
                None => forall|b: int| 0 <= b < self.entity(k.table as int).backrefs@.len()
                    ==> (#[trigger] self.entity(k.table as int).backrefs@[b]).name@ != name@,
            },
    {
        let brs = &self.schema.entities()[k.table].backrefs;
        let wanted = String::from_str(name);
        let row = &self.tables[k.table][k.index];
        proof {
            assert(*row == self.tables@[k.table as int]@[k.index as int]);
            assert(self.row_wf(k.table as int, *row));
        }
        let mut b: usize = 0;
        while b < brs.len()
            invariant
                brs@ == self.entity(k.table as int).backrefs@,
                wanted@ == name@,
                b <= brs@.len(),
                row.backrefs@.len() == brs@.len(),
                *row == self.tables@[k.table as int]@[k.index as int],
                forall|c: int| 0 <= c < b ==> (#[trigger] brs@[c]).name@ != name@,
            decreases brs@.len() - b,
        {
            if brs[b].name == wanted {
                assert(row.backrefs@[b as int]@ == self.backref_set(k.table as int, k.index as int, b as int));
                return Some(&row.backrefs[b]);
            }
            b += 1;
        }
        None
    }
}

impl Graphs {
    /// A key held in field `j` of a stored row addresses a row.
    pub proof fn lemma_stored_keys_valid(&self, k: Key, j: int)
        requires
            self.wf(),
            self.key_valid(k),
            0 <= j < self.values_of(k.table as int, k.index as int).len(),
        ensures
            match self.values_of(k.table as int, k.index as int)[j] {
                ValueView::Ref(r) => self.key_valid(r),
                ValueView::OptRef(Some(r)) => self.key_valid(r),
                ValueView::RefSet(s) => forall|r: Key| #[trigger] s.contains(r) ==> self.key_valid(r),
                _ => true,
            },
    {
        let row = self.tables@[k.table as int]@[k.index as int];
        assert(self.tables@[k.table as int]@.len() == self.tables@[k.table as int].len());
        assert(self.row_wf(k.table as int, row));
        assert(self.value_fits(self.schema.kinds()[k.table as int][j], row.values@[j]));
    }
}

impl Graphs {
    /// Whether `v` may stand in a new row, in a field of kind `kind`.
    pub fn value_accepted(&self, kind: FieldKind, v: &Value) -> (r: bool)
        requires
            self.wf(),
            match kind.target_spec() {
                Some(t) => t < self.num_tables(),
                None => true,
            },
        ensures
            r == self.value_fits(kind, *v),
    {
        match (kind, v) {
            (FieldKind::Scalar, Value::Int(_)) => true,
            (FieldKind::Scalar, Value::Text(_)) => true,
            (FieldKind::Reference(t), Value::Ref(k)) => k.table == t && k.index < self.tables[t].len(),
            (FieldKind::OptionalReference(_), Value::OptRef(None)) => true,
            (FieldKind::OptionalReference(t), Value::OptRef(Some(k))) => k.table == t && k.index < self.tables[t].len(),
            (FieldKind::ReferenceSet(t), Value::RefSet(s)) => {
                if s.table() != t {
                    return false;
                }
                let members = s.iter();
                let n = self.tables[t].len();
                let mut j: usize = 0;
                while j < members.len()
                    invariant
                        self.wf(),
                        t < self.num_tables(),
                        n == self.table_len(t as int),
                        members@.to_set() == s@,
                        kind == FieldKind::ReferenceSet(t),
                        *v == Value::RefSet(*s),
                        j <= members@.len(),
                        forall|c: int| 0 <= c < j ==> (#[trigger] members@[c]).table == t && members@[c].index < n,
                    decreases members@.len() - j,
                {
                    if members[j].table != t || members[j].index >= n {
                        let ghost k = members@[j as int];
                        assert(members@.to_set().contains(k));
                        assert(s@.contains(k));
                        assert(!(k.table == t && self.key_valid(k)));
                        assert(!self.value_fits(kind, *v));
                        return false;
                    }
                    j += 1;
                }
                assert forall|k: Key| #[trigger] s@.contains(k) implies k.table == t && self.key_valid(k) by {
                    assert(members@.to_set().contains(k));
                    let c = choose|c: int| 0 <= c < members@.len() && members@[c] == k;
                }
                true
            },
            _ => false,
        }
    }

    /// Whether `values` may be inserted as a row of `table`: the table exists,
    /// there is one value per field, each has its field's form, and every key
    /// addresses a row of the field's target table.
    pub fn accepts(&self, table: usize, values: &Vec<Value>) -> (r: bool)
        requires
            self.wf(),
        ensures
            r == (table < self.num_tables() && self.row_fits(table as int, values@)),
    {
        if table >= self.tables.len() {
            return false;
        }
        let fields = &self.schema.entities()[table].fields;
        assert(fields@.len() == self.schema.kinds()[table as int].len());
        if values.len() != fields.len() {
            return false;
        }
        let mut j: usize = 0;
        while j < values.len()
            invariant
                self.wf(),
                table < self.num_tables(),
                fields@ == self.entity(table as int).fields@,
                values@.len() == fields@.len(),
                fields@.len() == self.schema.kinds()[table as int].len(),
                j <= values@.len(),
                forall|c: int| 0 <= c < j ==> self.value_fits(self.schema.kinds()[table as int][c], #[trigger] values@[c]),
            decreases values@.len() - j,
        {
            let kind = fields[j].kind;
            proof {
                assert(kind == self.schema.kinds()[table as int][j as int]);
                assert(match self.schema.kinds()[table as int][j as int].target_spec() {
                    Some(t) => t < self.schema.kinds().len(),
                    None => true,
                });
            }
            if !self.value_accepted(kind, &values[j]) {
                return false;
            }
            j += 1;
        }
        true
    }
}

impl Graphs {
    /// Inserts `values` into `table` when `accepts` holds of them, as `insert`
    /// does; otherwise leaves the store as it was and returns `None`.
    pub fn try_insert(&mut self, table: usize, values: Vec<Value>) -> (r: Option<Key>)
        requires
            old(self).wf(),
        ensures
            final(self).wf(),
            match r {
                Some(k) => table < old(self).num_tables() && old(self).row_fits(table as int, values@)
                    && inserted(old(self), final(self), table as int, values_view(values@), k),
                None => !(table < old(self).num_tables() && old(self).row_fits(table as int, values@))
                    && *final(self) == *old(self),
            },
    {
        if self.accepts(table, &values) {
            Some(self.insert(table, values))
        } else {
            None
        }
    }
}

impl Key {
    /// The row this key addresses.
    pub fn d<'a>(&self, graphs: &'a Graphs) -> (r: &'a Row)
        requires
            graphs.wf(),
            graphs.key_valid(*self),
        ensures
            values_view(r.values@) == graphs.values_of(self.table as int, self.index as int),
            r.backrefs@.len() == graphs.backref_count(self.table as int, self.index as int),
            forall|b: int| 0 <= b < r.backrefs@.len() ==> (#[trigger] r.backrefs@[b])@ == graphs.backref_set(
                self.table as int, self.index as int, b,
            ),
    {
        &graphs.tables[self.table][self.index]
    }
}

} // verus!
