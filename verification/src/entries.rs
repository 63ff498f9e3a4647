//! Keyed entries: sequences of `(key, value)` pairs read as a map in which the
//! first entry with a key is the one that counts.
use vstd::prelude::*;

verus! {

/// The value under `key` (first entry with that key).
pub open spec fn lookup<V>(es: Seq<(Seq<char>, V)>, key: Seq<char>) -> Option<V>
    decreases es.len(),
{
    if es.len() == 0 {
        None
    } else if es[0].0 == key {
        Some(es[0].1)
    } else {
        lookup(es.drop_first(), key)
    }
}

/// Position of the first entry with `key`.
pub open spec fn key_pos<V>(es: Seq<(Seq<char>, V)>, key: Seq<char>) -> Option<int>
    decreases es.len(),
{
    if es.len() == 0 {
        None
    } else if es[0].0 == key {
        Some(0)
    } else {
        match key_pos(es.drop_first(), key) {
            Some(i) => Some(i + 1),
            None => None,
        }
    }
}

/// `es` with `key` set to `v`: the first entry with that key replaced, or a new
/// entry at the end.
pub open spec fn assign<V>(es: Seq<(Seq<char>, V)>, key: Seq<char>, v: V) -> Seq<(Seq<char>, V)>
    decreases es.len(),
{
    if es.len() == 0 {
        seq![(key, v)]
    } else if es[0].0 == key {
        es.update(0, (key, v))
    } else {
        seq![es[0]] + assign(es.drop_first(), key, v)
    }
}

/// No two entries share a key.
pub open spec fn keys_unique<V>(es: Seq<(Seq<char>, V)>) -> bool {
    forall|i: int, j: int| 0 <= i < j < es.len() ==> (#[trigger] es[i]).0 != (#[trigger] es[j]).0
}

/// After `assign`, the key reads the new value and every other key is unchanged.
pub proof fn lemma_assign<V>(es: Seq<(Seq<char>, V)>, key: Seq<char>, v: V, k: Seq<char>)
    ensures
        lookup(assign(es, key, v), k) == if k == key {
            Some(v)
        } else {
            lookup(es, k)
        },
    decreases es.len(),
{
    let r = assign(es, key, v);
    if es.len() == 0 {
        assert(r == seq![(key, v)]);
        assert(r.drop_first() =~= Seq::<(Seq<char>, V)>::empty());
        assert(lookup(r.drop_first(), k) == None::<V>);
        assert(lookup(es, k) == None::<V>);
    } else if es[0].0 != key {
        lemma_assign(es.drop_first(), key, v, k);
        assert(r == seq![es[0]] + assign(es.drop_first(), key, v));
        assert(r[0] == es[0]);
        assert(r.drop_first() =~= assign(es.drop_first(), key, v));
        if es[0].0 == k {
            assert(lookup(r, k) == Some(es[0].1));
        } else {
            assert(lookup(r, k) == lookup(r.drop_first(), k));
        }
    } else {
        assert(r == es.update(0, (key, v)));
        assert(r[0] == (key, v));
        assert(r.drop_first() =~= es.drop_first());
        if k != key {
            assert(lookup(r, k) == lookup(r.drop_first(), k));
            assert(lookup(es, k) == lookup(es.drop_first(), k));
        }
    }
}

/// The position found is an entry with the key, and `lookup` reads its value.
pub proof fn lemma_key_pos<V>(es: Seq<(Seq<char>, V)>, key: Seq<char>)
    ensures
        key_pos(es, key) matches Some(i) ==> 0 <= i < es.len() && es[i].0 == key && lookup(es, key)
            == Some(es[i].1),
        key_pos(es, key) is None ==> lookup(es, key) is None,
    decreases es.len(),
{
    if es.len() > 0 && es[0].0 != key {
        lemma_key_pos(es.drop_first(), key);
    }
}

/// `i` is the first position with `key` (or the length, when no entry has it).
pub proof fn lemma_key_pos_at<V>(es: Seq<(Seq<char>, V)>, key: Seq<char>, i: int)
    requires
        0 <= i <= es.len(),
        forall|j: int| 0 <= j < i ==> (#[trigger] es[j]).0 != key,
        i < es.len() ==> es[i].0 == key,
    ensures
        key_pos(es, key) == if i < es.len() {
            Some(i)
        } else {
            None::<int>
        },
    decreases i,
{
    if i > 0 {
        assert(es[0].0 != key);
        let t = es.drop_first();
        assert forall|j: int| 0 <= j < i - 1 implies (#[trigger] t[j]).0 != key by {
            assert(t[j] == es[j + 1]);
        }
        lemma_key_pos_at(t, key, i - 1);
    }
}

/// `assign` replaces the first entry with the key, or appends one.
pub proof fn lemma_assign_shape<V>(es: Seq<(Seq<char>, V)>, key: Seq<char>, v: V)
    ensures
        key_pos(es, key) matches Some(j) ==> assign(es, key, v) == es.update(j, (key, v)),
        key_pos(es, key) is None ==> assign(es, key, v) == es.push((key, v)),
    decreases es.len(),
{
    if es.len() == 0 {
        assert(seq![(key, v)] =~= es.push((key, v)));
    } else if es[0].0 != key {
        lemma_assign_shape(es.drop_first(), key, v);
        lemma_key_pos(es.drop_first(), key);
        match key_pos(es.drop_first(), key) {
            Some(j) => {
                assert(seq![es[0]] + es.drop_first().update(j, (key, v)) =~= es.update(
                    j + 1,
                    (key, v),
                ));
            },
            None => {
                assert(seq![es[0]] + es.drop_first().push((key, v)) =~= es.push((key, v)));
            },
        }
    }
}

/// Looking up in a sequence with one more entry at the end.
pub proof fn lemma_lookup_push<V>(es: Seq<(Seq<char>, V)>, e: (Seq<char>, V), k: Seq<char>)
    ensures
        lookup(es.push(e), k) == match lookup(es, k) {
            Some(x) => Some(x),
            None => if e.0 == k {
                Some(e.1)
            } else {
                None
            },
        },
    decreases es.len(),
{
    assert(es.push(e).len() > 0);
    if es.len() > 0 {
        assert(es.push(e)[0] == es[0]);
        assert(es.push(e).drop_first() =~= es.drop_first().push(e));
        lemma_lookup_push(es.drop_first(), e, k);
    } else {
        assert(es.push(e)[0] == e);
        assert(es.push(e).drop_first() =~= Seq::<(Seq<char>, V)>::empty());
        assert(lookup(Seq::<(Seq<char>, V)>::empty(), k) is None);
    }
}

/// A key that no entry holds is not found.
pub proof fn lemma_lookup_absent<V>(es: Seq<(Seq<char>, V)>, k: Seq<char>)
    requires
        forall|j: int| 0 <= j < es.len() ==> (#[trigger] es[j]).0 != k,
    ensures
        lookup(es, k) is None,
{
    lemma_key_pos_at(es, k, es.len() as int);
    lemma_key_pos(es, k);
}

/// Without a position for `key`, no entry has it.
pub proof fn lemma_key_pos_none<V>(es: Seq<(Seq<char>, V)>, key: Seq<char>)
    requires
        key_pos(es, key) is None,
    ensures
        forall|j: int| 0 <= j < es.len() ==> (#[trigger] es[j]).0 != key,
    decreases es.len(),
{
    if es.len() > 0 {
        lemma_key_pos_none(es.drop_first(), key);
        assert forall|j: int| 0 <= j < es.len() implies (#[trigger] es[j]).0 != key by {
            if j > 0 {
                assert(es[j] == es.drop_first()[j - 1]);
            }
        }
    }
}

/// `assign` keeps the keys distinct.
pub proof fn lemma_assign_unique<V>(es: Seq<(Seq<char>, V)>, key: Seq<char>, v: V)
    requires
        keys_unique(es),
    ensures
        keys_unique(assign(es, key, v)),
{
    lemma_assign_shape(es, key, v);
    lemma_key_pos(es, key);
    let r = assign(es, key, v);
    match key_pos(es, key) {
        Some(p) => {
            assert forall|i: int, j: int| 0 <= i < j < r.len() implies (#[trigger] r[i]).0
                != (#[trigger] r[j]).0 by {
                assert(r[i].0 == es[i].0);
                assert(r[j].0 == es[j].0);
            }
        },
        None => {
            lemma_key_pos_none(es, key);
            assert forall|i: int, j: int| 0 <= i < j < r.len() implies (#[trigger] r[i]).0
                != (#[trigger] r[j]).0 by {
                if j < es.len() {
                    assert(r[i] == es[i] && r[j] == es[j]);
                } else {
                    assert(r[i] == es[i]);
                    assert(r[j].0 == key);
                }
            }
        },
    }
}

} // verus!
