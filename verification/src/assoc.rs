//! Association lists with distinct keys, read as finite maps.
use vstd::prelude::*;

verus! {

/// The map that a list of entries describes; a later entry for a key
/// overrides an earlier one.
pub open spec fn entries_map<V>(e: Seq<(Seq<char>, V)>) -> Map<Seq<char>, V>
    decreases e.len(),
{
    if e.len() == 0 {
        Map::empty()
    } else {
        entries_map(e.drop_last()).insert(e.last().0, e.last().1)
    }
}

/// No key occurs twice.
pub open spec fn keys_distinct<V>(e: Seq<(Seq<char>, V)>) -> bool {
    forall|i: int, j: int| 0 <= i < j < e.len() ==> #[trigger] e[i].0 != #[trigger] e[j].0
}

/// A key is in the map exactly when some entry has it.
pub proof fn lemma_entries_map_dom<V>(e: Seq<(Seq<char>, V)>, k: Seq<char>)
    ensures
        entries_map(e).dom().contains(k) <==> exists|i: int| 0 <= i < e.len() && #[trigger] e[i].0 == k,
    decreases e.len(),
{
    if e.len() > 0 {
        lemma_entries_map_dom(e.drop_last(), k);
        if entries_map(e.drop_last()).dom().contains(k) {
            let i = choose|i: int| 0 <= i < e.drop_last().len() && #[trigger] e.drop_last()[i].0 == k;
            assert(e[i].0 == k);
        }
        if exists|i: int| 0 <= i < e.len() && #[trigger] e[i].0 == k {
            let i = choose|i: int| 0 <= i < e.len() && #[trigger] e[i].0 == k;
            if i < e.len() - 1 {
                assert(e.drop_last()[i].0 == k);
            }
        }
    }
}

/// With distinct keys, each entry's value is the map's value for its key.
pub proof fn lemma_entries_map_index<V>(e: Seq<(Seq<char>, V)>, i: int)
    requires
        keys_distinct(e),
        0 <= i < e.len(),
    ensures
        entries_map(e).dom().contains(e[i].0),
        entries_map(e)[e[i].0] == e[i].1,
    decreases e.len(),
{
    if i < e.len() - 1 {
        assert(keys_distinct(e.drop_last()));
        lemma_entries_map_index(e.drop_last(), i);
        assert(e.drop_last()[i] == e[i]);
        assert(e[i].0 != e[e.len() - 1].0);
    }
}

/// Replacing the value of an existing entry updates the map at its key.
pub proof fn lemma_entries_map_update<V>(e: Seq<(Seq<char>, V)>, i: int, v: V)
    requires
        keys_distinct(e),
        0 <= i < e.len(),
    ensures
        keys_distinct(e.update(i, (e[i].0, v))),
        entries_map(e.update(i, (e[i].0, v))) == entries_map(e).insert(e[i].0, v),
    decreases e.len(),
{
    let e2 = e.update(i, (e[i].0, v));
    assert forall|a: int, b: int| 0 <= a < b < e2.len() implies #[trigger] e2[a].0 != #[trigger] e2[b].0 by {
        assert(e2[a].0 == e[a].0);
        assert(e2[b].0 == e[b].0);
    }
    if i == e.len() - 1 {
        assert(e2.drop_last() == e.drop_last());
        assert(!entries_map(e.drop_last()).dom().contains(e[i].0)) by {
            lemma_entries_map_dom(e.drop_last(), e[i].0);
            if exists|j: int| 0 <= j < e.drop_last().len() && #[trigger] e.drop_last()[j].0 == e[i].0 {
                let j = choose|j: int| 0 <= j < e.drop_last().len() && #[trigger] e.drop_last()[j].0 == e[i].0;
                assert(e[j].0 == e[i].0);
            }
        }
        assert(entries_map(e2) =~= entries_map(e).insert(e[i].0, v));
    } else {
        assert(keys_distinct(e.drop_last()));
        lemma_entries_map_update(e.drop_last(), i, v);
        assert(e2.drop_last() == e.drop_last().update(i, (e[i].0, v)));
        assert(e[i].0 != e.last().0);
        assert(entries_map(e2) =~= entries_map(e).insert(e[i].0, v));
    }
}

/// Appending an entry for a new key inserts it into the map.
pub proof fn lemma_entries_map_push<V>(e: Seq<(Seq<char>, V)>, k: Seq<char>, v: V)
    requires
        keys_distinct(e),
        !entries_map(e).dom().contains(k),
    ensures
        keys_distinct(e.push((k, v))),
        entries_map(e.push((k, v))) == entries_map(e).insert(k, v),
{
    let e2 = e.push((k, v));
    assert(e2.drop_last() == e);
    assert forall|a: int, b: int| 0 <= a < b < e2.len() implies #[trigger] e2[a].0 != #[trigger] e2[b].0 by {
        if b == e.len() {
            lemma_entries_map_dom(e, k);
            assert(e[a].0 == e2[a].0);
        } else {
            assert(e2[a] == e[a] && e2[b] == e[b]);
        }
    }
}

} // verus!
