//! Lists of keyed entries that stand for maps: each key at most once.

use vstd::prelude::*;

verus! {

/// No key stands twice.
pub open spec fn keys_distinct<V>(es: Seq<(Seq<char>, V)>) -> bool {
    forall|i: int, j: int| 0 <= i < j < es.len() ==> es[i].0 != es[j].0
}

/// Whether some entry has the key.
pub open spec fn has_key<V>(es: Seq<(Seq<char>, V)>, key: Seq<char>) -> bool {
    exists|i: int| 0 <= i < es.len() && #[trigger] es[i].0 == key
}

/// The map that a list of entries stands for: a later entry wins.
pub open spec fn as_map<V>(es: Seq<(Seq<char>, V)>) -> Map<Seq<char>, V>
    decreases es.len(),
{
    if es.len() == 0 {
        Map::empty()
    } else {
        as_map(es.drop_last()).insert(es.last().0, es.last().1)
    }
}

/// The keys of the map are the keys of the entries, and where no key stands
/// twice each entry gives its key's value.
pub proof fn lemma_as_map<V>(es: Seq<(Seq<char>, V)>)
    ensures
        forall|k: Seq<char>| as_map(es).contains_key(k) <==> has_key(es, k),
        keys_distinct(es) ==> forall|i: int|
            0 <= i < es.len() ==> as_map(es)[#[trigger] es[i].0] == es[i].1,
    decreases es.len(),
{
    if es.len() > 0 {
        let head = es.drop_last();
        lemma_as_map(head);
        assert forall|k: Seq<char>| as_map(es).contains_key(k) implies has_key(es, k) by {
            if k == es.last().0 {
                assert(es[es.len() - 1].0 == k);
            } else {
                assert(has_key(head, k));
                let i = choose|i: int| 0 <= i < head.len() && #[trigger] head[i].0 == k;
                assert(es[i].0 == k);
            }
        }
        assert forall|k: Seq<char>| has_key(es, k) implies as_map(es).contains_key(k) by {
            let i = choose|i: int| 0 <= i < es.len() && #[trigger] es[i].0 == k;
            if i < es.len() - 1 {
                assert(head[i].0 == k);
                assert(has_key(head, k));
            } else {
                assert(es.last().0 == k);
            }
        }
        if keys_distinct(es) {
            assert(keys_distinct(head)) by {
                assert forall|i: int, j: int| 0 <= i < j < head.len() implies head[i].0
                    != head[j].0 by {
                    assert(es[i].0 != es[j].0);
                }
            }
            assert forall|i: int| 0 <= i < es.len() implies as_map(es)[#[trigger] es[i].0]
                == es[i].1 by {
                if i < es.len() - 1 {
                    assert(es[i].0 != es[es.len() - 1].0);
                    assert(head[i] == es[i]);
                }
            }
        }
    }
}

/// A new value for the key of an entry: the map with that key set.
pub proof fn lemma_set<V>(es: Seq<(Seq<char>, V)>, i: int, v: V)
    requires
        keys_distinct(es),
        0 <= i < es.len(),
    ensures
        keys_distinct(es.update(i, (es[i].0, v))),
        as_map(es.update(i, (es[i].0, v))) == as_map(es).insert(es[i].0, v),
{
    let after = es.update(i, (es[i].0, v));
    assert(keys_distinct(after)) by {
        assert forall|a: int, b: int| 0 <= a < b < after.len() implies after[a].0
            != after[b].0 by {
            assert(es[a].0 != es[b].0);
        }
    }
    lemma_as_map(es);
    lemma_as_map(after);
    let want = as_map(es).insert(es[i].0, v);
    assert forall|k: Seq<char>| as_map(after).contains_key(k) <==> want.contains_key(k) by {
        if has_key(after, k) {
            let j = choose|j: int| 0 <= j < after.len() && #[trigger] after[j].0 == k;
            assert(es[j].0 == k);
        }
        if has_key(es, k) {
            let j = choose|j: int| 0 <= j < es.len() && #[trigger] es[j].0 == k;
            assert(after[j].0 == k);
        }
        if k == es[i].0 {
            assert(after[i].0 == k);
        }
    }
    assert forall|k: Seq<char>| as_map(after).contains_key(k) implies as_map(after)[k]
        == want[k] by {
        assert(has_key(after, k));
        let j = choose|j: int| 0 <= j < after.len() && #[trigger] after[j].0 == k;
        assert(keys_distinct(after));
        assert(as_map(after)[after[j].0] == after[j].1);
        if j != i {
            assert(as_map(es)[es[j].0] == es[j].1);
            if j < i {
                assert(es[j].0 != es[i].0);
            } else {
                assert(es[i].0 != es[j].0);
            }
        }
    }
    assert(as_map(after) =~= want);
}

/// One more entry with a key that no entry has: the map with that key set.
pub proof fn lemma_push<V>(es: Seq<(Seq<char>, V)>, key: Seq<char>, v: V)
    requires
        keys_distinct(es),
        !has_key(es, key),
    ensures
        keys_distinct(es.push((key, v))),
        as_map(es.push((key, v))) == as_map(es).insert(key, v),
{
    let after = es.push((key, v));
    assert(after.drop_last() =~= es);
    assert forall|a: int, b: int| 0 <= a < b < after.len() implies after[a].0 != after[b].0 by {
        if b < es.len() {
            assert(es[a].0 != es[b].0);
        } else {
            assert(es[a].0 == after[a].0);
        }
    }
}

/// Without one entry: the map without that entry's key.
pub proof fn lemma_remove<V>(es: Seq<(Seq<char>, V)>, i: int)
    requires
        keys_distinct(es),
        0 <= i < es.len(),
    ensures
        keys_distinct(es.remove(i)),
        as_map(es.remove(i)) == as_map(es).remove(es[i].0),
{
    let after = es.remove(i);
    es.remove_ensures(i);
    assert(keys_distinct(after)) by {
        assert forall|a: int, b: int| 0 <= a < b < after.len() implies after[a].0
            != after[b].0 by {
            let a0 = if a < i {
                a
            } else {
                a + 1
            };
            let b0 = if b < i {
                b
            } else {
                b + 1
            };
            assert(es[a0].0 != es[b0].0);
        }
    }
    lemma_as_map(es);
    lemma_as_map(after);
    let want = as_map(es).remove(es[i].0);
    assert forall|k: Seq<char>| as_map(after).contains_key(k) <==> want.contains_key(k) by {
        if has_key(after, k) {
            let j = choose|j: int| 0 <= j < after.len() && #[trigger] after[j].0 == k;
            let j0 = if j < i {
                j
            } else {
                j + 1
            };
            assert(es[j0].0 == k);
            if j0 < i {
                assert(es[j0].0 != es[i].0);
            } else {
                assert(es[i].0 != es[j0].0);
            }
        }
        if has_key(es, k) && k != es[i].0 {
            let j = choose|j: int| 0 <= j < es.len() && #[trigger] es[j].0 == k;
            let j1 = if j < i {
                j
            } else {
                j - 1
            };
            assert(after[j1].0 == k);
        }
    }
    assert forall|k: Seq<char>| as_map(after).contains_key(k) implies as_map(after)[k]
        == want[k] by {
        assert(has_key(after, k));
        let j = choose|j: int| 0 <= j < after.len() && #[trigger] after[j].0 == k;
        let j0 = if j < i {
            j
        } else {
            j + 1
        };
        assert(keys_distinct(after));
        assert(as_map(after)[after[j].0] == after[j].1);
        assert(after[j] == es[j0]);
        assert(as_map(es)[es[j0].0] == es[j0].1);
    }
    assert(as_map(after) =~= want);
}

} // verus!
