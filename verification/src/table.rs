//! Association tables: sequences of key-value entries with pairwise
//! distinct keys, abstracted as a `Map` over the views of the keys and
//! values. The font's property and glyph tables are built on these.

use vstd::prelude::*;

verus! {

/// The mapping that a sequence of entries denotes: a later entry for a key
/// overrides an earlier one.
pub open spec fn table_map<K: View, V: View>(entries: Seq<(K, V)>) -> Map<K::V, V::V>
    decreases entries.len(),
{
    if entries.len() == 0 {
        Map::empty()
    } else {
        table_map(entries.drop_last()).insert(entries.last().0@, entries.last().1@)
    }
}

/// Whether the keys of the entries are pairwise distinct.
pub open spec fn distinct_keys<K: View, V: View>(entries: Seq<(K, V)>) -> bool {
    forall|i: int, j: int|
        0 <= i < j < entries.len() ==> (#[trigger] entries[i]).0@ != (#[trigger] entries[j]).0@
}

/// A key is in the table's mapping exactly when some entry carries it.
pub proof fn lemma_table_map_domain<K: View, V: View>(entries: Seq<(K, V)>, k: K::V)
    ensures
        table_map(entries).contains_key(k) <==> exists|i: int|
            0 <= i < entries.len() && (#[trigger] entries[i]).0@ == k,
    decreases entries.len(),
{
    if entries.len() > 0 {
        let prefix = entries.drop_last();
        lemma_table_map_domain(prefix, k);
        if table_map(entries).contains_key(k) {
            if entries.last().0@ == k {
                assert(entries[entries.len() - 1].0@ == k);
            } else {
                let i = choose|i: int| 0 <= i < prefix.len() && (#[trigger] prefix[i]).0@ == k;
                assert(entries[i].0@ == k);
            }
        }
        if exists|i: int| 0 <= i < entries.len() && (#[trigger] entries[i]).0@ == k {
            let i = choose|i: int| 0 <= i < entries.len() && (#[trigger] entries[i]).0@ == k;
            if i < entries.len() - 1 {
                assert(prefix[i].0@ == k);
            }
        }
    }
}

/// With distinct keys, the entry at any index gives the mapping's value for
/// its key.
pub proof fn lemma_table_map_at<K: View, V: View>(entries: Seq<(K, V)>, i: int)
    requires
        distinct_keys(entries),
        0 <= i < entries.len(),
    ensures
        table_map(entries).contains_key(entries[i].0@),
        table_map(entries)[entries[i].0@] == entries[i].1@,
    decreases entries.len(),
{
    let prefix = entries.drop_last();
    assert(distinct_keys(prefix)) by {
        assert(forall|a: int|
            0 <= a < prefix.len() ==> #[trigger] prefix[a] == entries[a]);
    }
    if i == entries.len() - 1 {
    } else {
        lemma_table_map_at(prefix, i);
        assert(entries[i].0@ != entries.last().0@);
    }
}

/// With distinct keys, removing the entry at an index removes exactly its
/// key from the mapping, and keeps the remaining keys distinct.
pub proof fn lemma_table_map_remove<K: View, V: View>(entries: Seq<(K, V)>, i: int)
    requires
        distinct_keys(entries),
        0 <= i < entries.len(),
    ensures
        table_map(entries.remove(i)) == table_map(entries).remove(entries[i].0@),
        distinct_keys(entries.remove(i)),
    decreases entries.len(),
{
    let k = entries[i].0@;
    let r = entries.remove(i);
    let prefix = entries.drop_last();
    assert(distinct_keys(prefix)) by {
        assert(forall|a: int|
            0 <= a < prefix.len() ==> #[trigger] prefix[a] == entries[a]);
    }
    assert(distinct_keys(r)) by {
        assert(forall|a: int|
            0 <= a < r.len() ==> #[trigger] r[a] == (if a < i {
                entries[a]
            } else {
                entries[a + 1]
            }));
    }
    if i == entries.len() - 1 {
        assert(r =~= prefix);
        lemma_table_map_domain(prefix, k);
        assert(!table_map(prefix).contains_key(k)) by {
            assert(forall|a: int|
                0 <= a < prefix.len() ==> (#[trigger] prefix[a]).0@ != k);
        }
        assert(table_map(prefix) =~= table_map(prefix).insert(k, entries.last().1@).remove(k));
    } else {
        lemma_table_map_remove(prefix, i);
        let lk = entries.last().0@;
        let lv = entries.last().1@;
        assert(r.len() == entries.len() - 1);
        assert(r.last() == entries.last());
        assert(r.drop_last() =~= prefix.remove(i));
        assert(table_map(r) == table_map(prefix.remove(i)).insert(lk, lv));
        assert(prefix[i] == entries[i]);
        assert(lk != k);
        assert(table_map(prefix).remove(k).insert(lk, lv) =~= table_map(prefix).insert(
            lk,
            lv,
        ).remove(k));
    }
}

/// Appending an entry adds exactly its key-value pair to the mapping; if no
/// earlier entry carried that key, the keys stay distinct.
pub proof fn lemma_table_map_push<K: View, V: View>(entries: Seq<(K, V)>, k: K, v: V)
    ensures
        table_map(entries.push((k, v))) == table_map(entries).insert(k@, v@),
        distinct_keys(entries) && (forall|i: int|
            0 <= i < entries.len() ==> (#[trigger] entries[i]).0@ != k@) ==> distinct_keys(
            entries.push((k, v)),
        ),
{
    let p = entries.push((k, v));
    assert(p.drop_last() =~= entries);
    assert(p.last() == (k, v));
    if distinct_keys(entries) && (forall|i: int|
        0 <= i < entries.len() ==> (#[trigger] entries[i]).0@ != k@) {
        assert(forall|a: int| 0 <= a < entries.len() ==> #[trigger] p[a] == entries[a]);
        assert(p[p.len() - 1] == (k, v));
        assert(distinct_keys(p)) by {
            assert(forall|a: int, b: int|
                0 <= a < b < p.len() ==> (#[trigger] p[a]).0@ != (#[trigger] p[b]).0@);
        }
    }
}

} // verus!
