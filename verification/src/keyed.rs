//! Finite maps keyed by names, held as lists of (name, value) pairs with
//! distinct names.

use vstd::prelude::*;

verus! {

/// The map that a list of (name, value) pairs describes (a later pair for a
/// name overriding an earlier one).
pub open spec fn keyed_map<T>(pairs: Seq<(Seq<char>, T)>) -> Map<Seq<char>, T>
    decreases pairs.len(),
{
    if pairs.len() == 0 {
        Map::empty()
    } else {
        keyed_map(pairs.drop_last()).insert(pairs.last().0, pairs.last().1)
    }
}

/// No name occurs twice.
pub open spec fn keys_distinct<T>(pairs: Seq<(Seq<char>, T)>) -> bool {
    forall|i: int, j: int|
        0 <= i < pairs.len() && 0 <= j < pairs.len() && i != j ==> #[trigger] pairs[i].0
            != #[trigger] pairs[j].0
}

/// A name is in the map exactly when some pair holds it, and with distinct
/// names the map gives each pair's value.
pub proof fn lemma_keyed_map<T>(pairs: Seq<(Seq<char>, T)>)
    requires
        keys_distinct(pairs),
    ensures
        forall|k: Seq<char>|
            #[trigger] keyed_map(pairs).contains_key(k) <==> exists|i: int|
                0 <= i < pairs.len() && pairs[i].0 == k,
        forall|i: int|
            0 <= i < pairs.len() ==> keyed_map(pairs)[#[trigger] pairs[i].0] == pairs[i].1,
    decreases pairs.len(),
{
    if pairs.len() > 0 {
        let init = pairs.drop_last();
        assert(keys_distinct(init)) by {
            assert forall|i: int, j: int|
                0 <= i < init.len() && 0 <= j < init.len() && i != j implies #[trigger] init[i].0
                != #[trigger] init[j].0 by {
                assert(init[i] == pairs[i] && init[j] == pairs[j]);
            }
        }
        lemma_keyed_map(init);
        assert forall|k: Seq<char>| #[trigger] keyed_map(pairs).contains_key(k) <==> exists|i: int|
            0 <= i < pairs.len() && pairs[i].0 == k by {
            if keyed_map(pairs).contains_key(k) {
                if k == pairs.last().0 {
                    assert(pairs[pairs.len() - 1].0 == k);
                } else {
                    assert(keyed_map(init).contains_key(k));
                    let i = choose|i: int| 0 <= i < init.len() && init[i].0 == k;
                    assert(init[i] == pairs[i]);
                    assert(pairs[i].0 == k);
                }
            }
            if exists|i: int| 0 <= i < pairs.len() && pairs[i].0 == k {
                let i = choose|i: int| 0 <= i < pairs.len() && pairs[i].0 == k;
                if i < init.len() {
                    assert(init[i] == pairs[i]);
                }
            }
        }
        assert forall|i: int| 0 <= i < pairs.len() implies keyed_map(pairs)[#[trigger] pairs[i].0]
            == pairs[i].1 by {
            if i < init.len() {
                assert(init[i] == pairs[i]);
                assert(pairs[i].0 != pairs.last().0);
            }
        }
    }
}

/// Giving pair `i` a new value keeps the names distinct and sets that
/// name's value in the map.
pub proof fn lemma_keyed_map_update<T>(pairs: Seq<(Seq<char>, T)>, i: int, v: T)
    requires
        keys_distinct(pairs),
        0 <= i < pairs.len(),
    ensures
        keys_distinct(pairs.update(i, (pairs[i].0, v))),
        keyed_map(pairs.update(i, (pairs[i].0, v))) == keyed_map(pairs).insert(pairs[i].0, v),
{
    let key = pairs[i].0;
    let new_pairs = pairs.update(i, (key, v));
    assert(keys_distinct(new_pairs)) by {
        assert forall|a: int, b: int|
            0 <= a < new_pairs.len() && 0 <= b < new_pairs.len() && a != b implies #[trigger] new_pairs[a].0
            != #[trigger] new_pairs[b].0 by {
            assert(pairs[a].0 != pairs[b].0);
        }
    }
    lemma_keyed_map(pairs);
    lemma_keyed_map(new_pairs);
    let expected = keyed_map(pairs).insert(key, v);
    assert forall|k: Seq<char>| #[trigger] keyed_map(new_pairs).contains_key(k) implies expected.contains_key(k) by {
        let j = choose|j: int| 0 <= j < new_pairs.len() && new_pairs[j].0 == k;
        if j != i {
            assert(pairs[j].0 == k);
        }
    }
    assert forall|k: Seq<char>| #[trigger] expected.contains_key(k) implies keyed_map(new_pairs).contains_key(k) by {
        if k != key {
            let j = choose|j: int| 0 <= j < pairs.len() && pairs[j].0 == k;
            assert(new_pairs[j].0 == k);
        } else {
            assert(new_pairs[i].0 == k);
        }
    }
    assert forall|k: Seq<char>| #[trigger] keyed_map(new_pairs).contains_key(k) implies keyed_map(new_pairs)[k] == expected[k] by {
        let j = choose|j: int| 0 <= j < new_pairs.len() && new_pairs[j].0 == k;
        assert(keyed_map(new_pairs)[new_pairs[j].0] == new_pairs[j].1);
        if j != i {
            assert(keyed_map(pairs)[pairs[j].0] == pairs[j].1);
        }
    }
    assert(keyed_map(new_pairs) =~= expected);
}

/// Appending a pair for a name not yet present keeps the names distinct and
/// adds that name to the map.
pub proof fn lemma_keyed_map_push<T>(pairs: Seq<(Seq<char>, T)>, k: Seq<char>, v: T)
    requires
        keys_distinct(pairs),
        forall|i: int| 0 <= i < pairs.len() ==> pairs[i].0 != k,
    ensures
        keys_distinct(pairs.push((k, v))),
        keyed_map(pairs.push((k, v))) == keyed_map(pairs).insert(k, v),
        !keyed_map(pairs).contains_key(k),
{
    let new_pairs = pairs.push((k, v));
    assert(keys_distinct(new_pairs)) by {
        assert forall|a: int, b: int|
            0 <= a < new_pairs.len() && 0 <= b < new_pairs.len() && a != b implies #[trigger] new_pairs[a].0
            != #[trigger] new_pairs[b].0 by {
            if a < pairs.len() && b < pairs.len() {
                assert(pairs[a].0 != pairs[b].0);
            }
        }
    }
    lemma_keyed_map(pairs);
    assert(new_pairs.drop_last() =~= pairs);
}

/// Removing pair `i` keeps the names distinct and removes that name from the
/// map.
pub proof fn lemma_keyed_map_remove<T>(pairs: Seq<(Seq<char>, T)>, i: int)
    requires
        keys_distinct(pairs),
        0 <= i < pairs.len(),
    ensures
        keys_distinct(pairs.remove(i)),
        keyed_map(pairs.remove(i)) == keyed_map(pairs).remove(pairs[i].0),
{
    let key = pairs[i].0;
    let new_pairs = pairs.remove(i);
    assert(keys_distinct(new_pairs)) by {
        assert forall|a: int, b: int|
            0 <= a < new_pairs.len() && 0 <= b < new_pairs.len() && a != b implies #[trigger] new_pairs[a].0
            != #[trigger] new_pairs[b].0 by {
            let oa = if a < i { a } else { a + 1 };
            let ob = if b < i { b } else { b + 1 };
            assert(new_pairs[a] == pairs[oa] && new_pairs[b] == pairs[ob]);
        }
    }
    lemma_keyed_map(pairs);
    lemma_keyed_map(new_pairs);
    let expected = keyed_map(pairs).remove(key);
    assert forall|k: Seq<char>| #[trigger] keyed_map(new_pairs).contains_key(k) implies expected.contains_key(k) by {
        let j = choose|j: int| 0 <= j < new_pairs.len() && new_pairs[j].0 == k;
        let oj = if j < i { j } else { j + 1 };
        assert(new_pairs[j] == pairs[oj]);
        assert(oj != i);
    }
    assert forall|k: Seq<char>| #[trigger] expected.contains_key(k) implies keyed_map(new_pairs).contains_key(k) by {
        let j = choose|j: int| 0 <= j < pairs.len() && pairs[j].0 == k;
        assert(j != i);
        let nj = if j < i { j } else { j - 1 };
        assert(new_pairs[nj] == pairs[j]);
    }
    assert forall|k: Seq<char>| #[trigger] keyed_map(new_pairs).contains_key(k) implies keyed_map(new_pairs)[k] == expected[k] by {
        let j = choose|j: int| 0 <= j < new_pairs.len() && new_pairs[j].0 == k;
        let oj = if j < i { j } else { j + 1 };
        assert(new_pairs[j] == pairs[oj]);
        assert(keyed_map(new_pairs)[new_pairs[j].0] == new_pairs[j].1);
        assert(keyed_map(pairs)[pairs[oj].0] == pairs[oj].1);
    }
    assert(keyed_map(new_pairs) =~= expected);
}

} // verus!
