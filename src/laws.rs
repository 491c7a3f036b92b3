//! Properties of the store that hold across calls, proved from the contracts
//! of `Graphs::insert` and `Graphs::lookup`.

use vstd::prelude::*;
use crate::graphs::{inserted, latest_match, is_latest, refers, Graphs, ValueView};
use crate::keys::Key;

verus! {

/// `gs` is a run of inserts: store `gs[i + 1]` is `gs[i]` after inserting
/// `vals[i]` into table `tables[i]`, which received key `keys[i]`.
pub open spec fn insert_run(gs: Seq<Graphs>, tables: Seq<int>, vals: Seq<Seq<ValueView>>, keys: Seq<Key>) -> bool {
    &&& gs.len() == keys.len() + 1
    &&& tables.len() == keys.len()
    &&& vals.len() == keys.len()
    &&& forall|i: int| 0 <= i < keys.len() ==> #[trigger] inserted(&gs[i], &gs[i + 1], tables[i], vals[i], keys[i])
}

/// One insert keeps every existing key valid and its row's values unchanged.
pub proof fn lemma_insert_keeps_row(g1: Graphs, g2: Graphs, table: int, vals: Seq<ValueView>, k: Key, old_key: Key)
    requires
        inserted(&g1, &g2, table, vals, k),
        g1.key_valid(old_key),
    ensures
        g2.key_valid(old_key),
        g2.values_of(old_key.table as int, old_key.index as int) == g1.values_of(old_key.table as int, old_key.index as int),
{
    assert(g2.table_len(old_key.table as int) >= g1.table_len(old_key.table as int));
}

/// Key stability: after any run of inserts, every key that an insert
/// returned still addresses a row, and that row holds the values inserted.
pub proof fn law_key_stability(gs: Seq<Graphs>, tables: Seq<int>, vals: Seq<Seq<ValueView>>, keys: Seq<Key>)
    requires
        insert_run(gs, tables, vals, keys),
    ensures
        forall|i: int| 0 <= i < keys.len() ==> {
            &&& gs.last().key_valid(#[trigger] keys[i])
            &&& gs.last().values_of(keys[i].table as int, keys[i].index as int) == vals[i]
        },
    decreases keys.len(),
{
    let n = keys.len() as int;
    if n > 0 {
        let gs0 = gs.drop_last();
        let t0 = tables.drop_last();
        let v0 = vals.drop_last();
        let k0 = keys.drop_last();
        assert forall|i: int| 0 <= i < k0.len() implies #[trigger] inserted(&gs0[i], &gs0[i + 1], t0[i], v0[i], k0[i]) by {
            assert(inserted(&gs[i], &gs[i + 1], tables[i], vals[i], keys[i]));
        }
        law_key_stability(gs0, t0, v0, k0);
        assert(inserted(&gs[n - 1], &gs[n], tables[n - 1], vals[n - 1], keys[n - 1]));
        assert forall|i: int| 0 <= i < n implies {
            &&& gs.last().key_valid(#[trigger] keys[i])
            &&& gs.last().values_of(keys[i].table as int, keys[i].index as int) == vals[i]
        } by {
            if i < n - 1 {
                assert(gs0.last() == gs[n - 1]);
                assert(k0[i] == keys[i]);
                lemma_insert_keeps_row(gs[n - 1], gs[n], tables[n - 1], vals[n - 1], keys[n - 1], keys[i]);
            } else {
                assert(gs[n].table_len(tables[n - 1]) == gs[n - 1].table_len(tables[n - 1]) + 1);
            }
        }
    }
}

/// Lookup after insert: right after `vals` is inserted, the latest row that
/// holds `vals` is the new one, and it holds exactly `vals`.
pub proof fn law_lookup_after_insert(g1: Graphs, g2: Graphs, table: int, vals: Seq<ValueView>, k: Key)
    requires
        inserted(&g1, &g2, table, vals, k),
        0 <= table < g1.num_tables(),
    ensures
        latest_match(&g2, table, vals) == Some(k),
        g2.values_of(k.table as int, k.index as int) == vals,
{
    let n = g1.table_len(table);
    g2.lemma_len_bounds(table);
    assert(g2.table_len(table) == n + 1);
    assert(is_latest(&g2, table, vals, n));
    let c = choose|c: int| is_latest(&g2, table, vals, c);
    assert(c == n);
}

/// A lookup that finds a key finds a row holding the values looked up.
pub proof fn law_lookup_sound(g: Graphs, table: int, vals: Seq<ValueView>)
    requires
        0 <= table < g.num_tables(),
        latest_match(&g, table, vals) is Some,
    ensures
        g.key_valid(latest_match(&g, table, vals)->Some_0),
        g.values_of(table, latest_match(&g, table, vals)->Some_0.index as int) == vals,
{
    let c = choose|c: int| is_latest(&g, table, vals, c);
    assert(is_latest(&g, table, vals, c));
    g.lemma_len_bounds(table);
}

/// Inserting equal values twice gives two distinct keys; a lookup then finds
/// the later one, and the earlier one still addresses its own row with the
/// same values.
pub proof fn law_duplicate_insert(
    g0: Graphs,
    g1: Graphs,
    g2: Graphs,
    table: int,
    vals: Seq<ValueView>,
    k1: Key,
    k2: Key,
)
    requires
        inserted(&g0, &g1, table, vals, k1),
        inserted(&g1, &g2, table, vals, k2),
        0 <= table < g0.num_tables(),
    ensures
        k1 != k2,
        latest_match(&g2, table, vals) == Some(k2),
        g2.key_valid(k1),
        g2.values_of(k1.table as int, k1.index as int) == vals,
{
    law_lookup_after_insert(g0, g1, table, vals, k1);
    assert(g1.table_len(table) == g0.table_len(table) + 1);
    lemma_insert_keeps_row(g1, g2, table, vals, k2, k1);
    law_lookup_after_insert(g1, g2, table, vals, k2);
}

/// Back-reference propagation: when field `br.field` of the new row refers
/// to the row `target`, the matching back-reference set of `target` holds the
/// new key afterwards.
pub proof fn law_backref_propagation(g1: Graphs, g2: Graphs, table: int, vals: Seq<ValueView>, k: Key, target: Key, b: int)
    requires
        inserted(&g1, &g2, table, vals, k),
        g1.key_valid(target),
        0 <= b < g1.backref_count(target.table as int, target.index as int),
        g1.entity(target.table as int).backrefs@[b].source == table,
        refers(vals[g1.entity(target.table as int).backrefs@[b].field as int], target),
    ensures
        g2.backref_set(target.table as int, target.index as int, b).contains(k),
{
}

/// Back-reference sets only grow: an insert removes no key from any of them.
pub proof fn lemma_backrefs_grow(g1: Graphs, g2: Graphs, table: int, vals: Seq<ValueView>, k: Key, t: int, i: int, b: int)
    requires
        inserted(&g1, &g2, table, vals, k),
        0 <= t < g1.num_tables(),
        0 <= i < g1.table_len(t),
        0 <= b < g1.backref_count(t, i),
    ensures
        g1.backref_set(t, i, b).subset_of(g2.backref_set(t, i, b)),
        g2.backref_count(t, i) == g1.backref_count(t, i),
{
    assert(g2.values_of(t, i) == g1.values_of(t, i));
}

/// Two rows inserted one after the other, both referring to `target`
/// through the same relationship, both appear in that relationship's
/// back-reference set of `target`.
pub proof fn law_shared_target(
    g0: Graphs,
    g1: Graphs,
    g2: Graphs,
    table: int,
    vals1: Seq<ValueView>,
    vals2: Seq<ValueView>,
    k1: Key,
    k2: Key,
    target: Key,
    b: int,
)
    requires
        inserted(&g0, &g1, table, vals1, k1),
        inserted(&g1, &g2, table, vals2, k2),
        g0.key_valid(target),
        0 <= b < g0.backref_count(target.table as int, target.index as int),
        g0.entity(target.table as int).backrefs@[b].source == table,
        refers(vals1[g0.entity(target.table as int).backrefs@[b].field as int], target),
        refers(vals2[g0.entity(target.table as int).backrefs@[b].field as int], target),
    ensures
        g2.backref_set(target.table as int, target.index as int, b).contains(k1),
        g2.backref_set(target.table as int, target.index as int, b).contains(k2),
        k1 != k2,
{
    law_backref_propagation(g0, g1, table, vals1, k1, target, b);
    lemma_insert_keeps_row(g0, g1, table, vals1, k1, target);
    lemma_backrefs_grow(g1, g2, table, vals2, k2, target.table as int, target.index as int, b);
    law_backref_propagation(g1, g2, table, vals2, k2, target, b);
    assert(g1.table_len(table) == g0.table_len(table) + 1);
}

/// An absent optional reference adds no key to any back-reference set of
/// the relationship it belongs to.
pub proof fn law_absent_reference(g1: Graphs, g2: Graphs, table: int, vals: Seq<ValueView>, k: Key, f: int)
    requires
        inserted(&g1, &g2, table, vals, k),
        vals[f] == ValueView::OptRef(None),
    ensures
        forall|t: int, i: int, b: int|
            0 <= t < g1.num_tables() && 0 <= i < g1.table_len(t) && 0 <= b < g1.backref_count(t, i)
                && g1.entity(t).backrefs@[b].source == table && g1.entity(t).backrefs@[b].field == f
                ==> #[trigger] g2.backref_set(t, i, b) == g1.backref_set(t, i, b),
{
}

} // verus!
