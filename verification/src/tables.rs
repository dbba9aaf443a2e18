//! Ordered tables keyed by degrees.

use std::collections::BTreeMap;
use vstd::prelude::*;
use vstd::std_specs::cmp::OrdSpec;
use vstd::std_specs::iter::IteratorSpec;

verus! {

/// Puts a value under a key, in place of the one that is there.
pub(crate) fn put<V>(table: &mut BTreeMap<usize, V>, key: usize, value: V)
    ensures
        final(table)@ == old(table)@.insert(key, value),
{
    broadcast use vstd::std_specs::btree::group_btree_axioms;
    broadcast use vstd::laws_cmp::group_laws_cmp;

    table.insert(key, value);
}

/// The value under a key, if there is one.
pub(crate) fn look_up<V>(table: &BTreeMap<usize, V>, key: usize) -> (res: Option<&V>)
    ensures
        res is Some <==> table@.contains_key(key),
        res matches Some(value) ==> *value == table@[key],
{
    broadcast use vstd::std_specs::btree::group_btree_axioms;
    broadcast use vstd::laws_cmp::group_laws_cmp;

    table.get(&key)
}

/// Whether the keys of entries ascend.
pub open spec fn keys_ascend<V>(entries: Seq<(usize, V)>) -> bool {
    forall|i: int, j: int| 0 <= i < j < entries.len() ==> entries[i].0 < entries[j].0
}

/// Whether entries are those of a table, by ascending keys.
pub open spec fn lists_table<V>(entries: Seq<(usize, V)>, table: Map<usize, V>) -> bool {
    &&& keys_ascend(entries)
    &&& forall|i: int|
        0 <= i < entries.len() ==> table.contains_key((#[trigger] entries[i]).0)
            && table[entries[i].0] == entries[i].1
    &&& forall|k: usize| #[trigger]
        table.contains_key(k) ==> exists|i: int|
            0 <= i < entries.len() && (#[trigger] entries[i]).0 == k
}

/// The entries of a table, by ascending keys.
pub(crate) fn entries<V: Copy>(table: &BTreeMap<usize, V>) -> (res: Vec<(usize, V)>)
    ensures
        lists_table(res@, table@),
{
    broadcast use vstd::std_specs::btree::group_btree_axioms;
    broadcast use vstd::laws_cmp::group_laws_cmp;

    let mut res: Vec<(usize, V)> = Vec::new();
    let walk = table.iter();
    let ghost all = walk.remaining();
    let ghost keys = all.map_values(|kv: (&usize, &V)| *kv.0);
    for (key, value) in it: walk
        invariant
            it.seq() == all,
            res@.len() == it.index(),
            forall|i: int|
                0 <= i < res@.len() ==> (#[trigger] res@[i]).0 == *all[i].0 && res@[i].1
                    == *all[i].1,
    {
        res.push((*key, *value));
    }
    proof {
        assert(res@.len() == all.len());
        assert forall|i: int, j: int| 0 <= i < j < res@.len() implies res@[i].0 < res@[j].0 by {
            assert(vstd::std_specs::btree::increasing_seq(keys));
            assert(keys[i].cmp_spec(&keys[j]) is Less);
        }
        assert forall|i: int| 0 <= i < res@.len() implies table@.contains_key(
            (#[trigger] res@[i]).0,
        ) && table@[res@[i].0] == res@[i].1 by {
            assert(table@.contains_key(*all[i].0));
        }
        assert forall|k: usize| #[trigger] table@.contains_key(k) implies exists|i: int|
            0 <= i < res@.len() && (#[trigger] res@[i]).0 == k by {
            assert(all.contains((&k, &table@[k])));
            let i = choose|i: int| 0 <= i < all.len() && all[i] == (&k, &table@[k]);
            assert(res@[i].0 == k);
        }
    }
    res
}

/// The table with given entries, if their keys ascend.
pub(crate) fn table_of<V: Copy>(entries: &Vec<(usize, V)>) -> (res: Option<BTreeMap<usize, V>>)
    ensures
        res is Some <==> keys_ascend(entries@),
        res matches Some(table) ==> lists_table(entries@, table@),
{
    let mut table: BTreeMap<usize, V> = BTreeMap::new();
    let mut i: usize = 0;
    while i < entries.len()
        invariant
            i <= entries@.len(),
            lists_table(entries@.take(i as int), table@),
        decreases entries@.len() - i,
    {
        let (key, value) = entries[i];
        let ghost shorter = entries@.take(i as int);
        let ghost longer = entries@.take(i + 1);
        if i > 0 && key <= entries[i - 1].0 {
            assert(entries@[i - 1].0 >= entries@[i as int].0);
            return None;
        }
        let ghost before = table@;
        put(&mut table, key, value);
        proof {
            assert(longer =~= shorter.push((key, value)));
            assert(i > 0 ==> shorter[i - 1].0 < key);
            assert(forall|j: int| 0 <= j < i ==> (#[trigger] shorter[j]).0 < key);
            assert forall|j: int| 0 <= j < longer.len() implies table@.contains_key(
                (#[trigger] longer[j]).0,
            ) && table@[longer[j].0] == longer[j].1 by {
                if j < i {
                    assert(longer[j] == shorter[j]);
                }
            }
            assert forall|k: usize| #[trigger] table@.contains_key(k) implies exists|j: int|
                0 <= j < longer.len() && (#[trigger] longer[j]).0 == k by {
                if k == key {
                    assert(longer[i as int].0 == k);
                } else {
                    assert(before.contains_key(k));
                    let j = choose|j: int|
                        0 <= j < shorter.len() && (#[trigger] shorter[j]).0 == k;
                    assert(longer[j].0 == k);
                }
            }
        }
        i = i + 1;
    }
    assert(entries@.take(entries@.len() as int) =~= entries@);
    Some(table)
}

/// A table has one list of entries.
pub proof fn lemma_entries_unique<V>(a: Seq<(usize, V)>, b: Seq<(usize, V)>, table: Map<usize, V>)
    requires
        lists_table(a, table),
        lists_table(b, table),
    ensures
        a == b,
{
    lemma_entries_agree(a, b, table, a.len() as int);
    lemma_entries_agree(b, a, table, b.len() as int);
    assert(a =~= b);
}

proof fn lemma_entries_agree<V>(
    a: Seq<(usize, V)>,
    b: Seq<(usize, V)>,
    table: Map<usize, V>,
    n: int,
)
    requires
        lists_table(a, table),
        lists_table(b, table),
        0 <= n <= a.len(),
    ensures
        n <= b.len(),
        forall|i: int| 0 <= i < n ==> a[i] == b[i],
    decreases n,
{
    if n > 0 {
        let i = n - 1;
        lemma_entries_agree(a, b, table, i);
        assert(table.contains_key(a[i].0));
        let j = choose|j: int| 0 <= j < b.len() && (#[trigger] b[j]).0 == a[i].0;
        if j < i {
            assert(a[j].0 < a[i].0);
        }
        assert(table.contains_key(b[i].0));
        let k = choose|k: int| 0 <= k < a.len() && (#[trigger] a[k]).0 == b[i].0;
        if k < i {
            assert(b[k].0 < b[i].0);
        } else if i < j {
            assert(b[i].0 < b[j].0);
            assert(a[k].0 < a[i].0);
        }
        assert(a[i].0 == b[i].0);
    }
}

} // verus!
