//! Association lists as specifications: the finite map that a sequence of
//! key-value pairs with distinct keys stands for, and how it changes when the
//! sequence does.

use vstd::prelude::*;

verus! {

/// No key occurs at two positions of `entries`.
pub open spec fn distinct_keys<K, T>(entries: Seq<(K, T)>) -> bool {
    forall|i: int, j: int|
        0 <= i < j < entries.len() ==> (#[trigger] entries[i]).0 != (#[trigger] entries[j]).0
}

/// Some entry of `entries` has the key `k`.
pub open spec fn has_key<K, T>(entries: Seq<(K, T)>, k: K) -> bool {
    exists|i: int| 0 <= i < entries.len() && (#[trigger] entries[i]).0 == k
}

/// A position at which `entries` holds the key `k`, if there is one.
pub open spec fn position_of<K, T>(entries: Seq<(K, T)>, k: K) -> int {
    choose|i: int| 0 <= i < entries.len() && (#[trigger] entries[i]).0 == k
}

/// The map from each key of `entries` to the value stored with it.
pub open spec fn keyed<K, T>(entries: Seq<(K, T)>) -> Map<K, T> {
    Map::new(|k: K| has_key(entries, k), |k: K| entries[position_of(entries, k)].1)
}

/// The keys of `entries`, in order.
pub open spec fn keys_of<K, T>(entries: Seq<(K, T)>) -> Seq<K> {
    entries.map_values(|e: (K, T)| e.0)
}

/// With distinct keys, the entry at position `i` is what the map holds for its key.
pub proof fn lemma_keyed_at<K, T>(entries: Seq<(K, T)>, i: int)
    requires
        distinct_keys(entries),
        0 <= i < entries.len(),
    ensures
        keyed(entries).contains_key(entries[i].0),
        keyed(entries)[entries[i].0] == entries[i].1,
{
    let k = entries[i].0;
    let p = position_of(entries, k);
    assert(0 <= p < entries.len() && entries[p].0 == k);
    if p < i {
        assert(entries[p].0 != entries[i].0);
    } else if i < p {
        assert(entries[i].0 != entries[p].0);
    }
}

/// A key that the map holds stands at some position of the list.
pub proof fn lemma_keyed_position<K, T>(entries: Seq<(K, T)>, k: K)
    requires
        keyed(entries).contains_key(k),
    ensures
        0 <= position_of(entries, k) < entries.len(),
        entries[position_of(entries, k)].0 == k,
        keyed(entries)[k] == entries[position_of(entries, k)].1,
{
}

/// The empty list stands for the empty map.
pub proof fn lemma_keyed_empty<K, T>()
    ensures
        distinct_keys(Seq::<(K, T)>::empty()),
        keyed(Seq::<(K, T)>::empty()) == Map::<K, T>::empty(),
{
    assert(keyed(Seq::<(K, T)>::empty()) =~= Map::<K, T>::empty());
}

/// Appending an entry under a new key inserts it into the map.
pub proof fn lemma_keyed_push<K, T>(entries: Seq<(K, T)>, k: K, v: T)
    requires
        distinct_keys(entries),
        !keyed(entries).contains_key(k),
    ensures
        distinct_keys(entries.push((k, v))),
        keyed(entries.push((k, v))) == keyed(entries).insert(k, v),
{
    let after = entries.push((k, v));
    assert forall|i: int, j: int| 0 <= i < j < after.len() implies (#[trigger] after[i]).0 != (
    #[trigger] after[j]).0 by {
        if j == entries.len() {
            assert(after[i] == entries[i]);
            assert(has_key(entries, entries[i].0));
        } else {
            assert(after[i] == entries[i] && after[j] == entries[j]);
        }
    }
    assert forall|key: K| #[trigger]
        keyed(after).contains_key(key) == keyed(entries).insert(k, v).contains_key(key) by {
        if keyed(after).contains_key(key) {
            let p = position_of(after, key);
            if p < entries.len() {
                assert(entries[p] == after[p]);
                assert(has_key(entries, key));
            }
        }
        if keyed(entries).contains_key(key) {
            let p = position_of(entries, key);
            assert(after[p] == entries[p]);
            assert(has_key(after, key));
        }
        if key == k {
            assert(after[entries.len() as int].0 == k);
            assert(has_key(after, key));
        }
    }
    assert forall|key: K| #[trigger]
        keyed(after).contains_key(key) implies keyed(after)[key] == keyed(entries).insert(
        k,
        v,
    )[key] by {
        if key == k {
            lemma_keyed_at(after, entries.len() as int);
        } else {
            let p = position_of(entries, key);
            assert(after[p] == entries[p]);
            lemma_keyed_at(after, p);
        }
    }
    assert(keyed(after) =~= keyed(entries).insert(k, v));
}

/// Dropping the entry at position `i` removes its key from the map.
pub proof fn lemma_keyed_remove<K, T>(entries: Seq<(K, T)>, i: int)
    requires
        distinct_keys(entries),
        0 <= i < entries.len(),
    ensures
        distinct_keys(entries.remove(i)),
        keyed(entries.remove(i)) == keyed(entries).remove(entries[i].0),
{
    let after = entries.remove(i);
    let gone = entries[i].0;
    assert forall|a: int, b: int| 0 <= a < b < after.len() implies (#[trigger] after[a]).0 != (
    #[trigger] after[b]).0 by {
        let first = if a < i { a } else { a + 1 };
        let second = if b < i { b } else { b + 1 };
        assert(after[a] == entries[first] && after[b] == entries[second]);
    }
    assert forall|key: K| #[trigger]
        keyed(after).contains_key(key) == keyed(entries).remove(gone).contains_key(key) by {
        if keyed(after).contains_key(key) {
            let p = position_of(after, key);
            let shifted = if p < i { p } else { p + 1 };
            assert(after[p] == entries[shifted]);
            assert(has_key(entries, key));
            if shifted < i {
                assert(entries[shifted].0 != entries[i].0);
            } else {
                assert(entries[i].0 != entries[shifted].0);
            }
        }
        if keyed(entries).remove(gone).contains_key(key) {
            let p = position_of(entries, key);
            assert(p != i);
            let q = if p < i { p } else { p - 1 };
            assert(after[q] == entries[p]);
            assert(has_key(after, key));
        }
    }
    assert forall|key: K| #[trigger]
        keyed(after).contains_key(key) implies keyed(after)[key] == keyed(entries).remove(
        gone,
    )[key] by {
        let p = position_of(after, key);
        let shifted = if p < i { p } else { p + 1 };
        assert(after[p] == entries[shifted]);
        lemma_keyed_at(after, p);
        lemma_keyed_at(entries, shifted);
    }
    assert(keyed(after) =~= keyed(entries).remove(gone));
}

/// A list with distinct keys stands for a finite map with as many keys as the
/// list has entries.
pub proof fn lemma_keyed_len<K, T>(entries: Seq<(K, T)>)
    requires
        distinct_keys(entries),
    ensures
        keyed(entries).dom().finite(),
        keyed(entries).dom().len() == entries.len(),
{
    let keys = keys_of(entries);
    assert forall|i: int, j: int| 0 <= i < keys.len() && 0 <= j < keys.len() && i != j implies keys[i]
        != keys[j] by {
        if i < j {
            assert(entries[i].0 != entries[j].0);
        } else {
            assert(entries[j].0 != entries[i].0);
        }
    }
    assert forall|k: K| keys.to_set().contains(k) == #[trigger] keyed(entries).dom().contains(k) by {
        if keys.to_set().contains(k) {
            let i = choose|i: int| 0 <= i < keys.len() && keys[i] == k;
            assert(entries[i].0 == k);
            assert(has_key(entries, k));
        }
        if keyed(entries).dom().contains(k) {
            let p = position_of(entries, k);
            assert(keys[p] == k);
        }
    }
    assert(keys.to_set() =~= keyed(entries).dom());
    keys.unique_seq_to_set();
    vstd::seq_lib::seq_to_set_is_finite(keys);
}

/// Two lists with distinct keys that hold the same entries, in whatever order,
/// stand for the same map.
pub proof fn lemma_keyed_same_entries<K, T>(a: Seq<(K, T)>, b: Seq<(K, T)>)
    requires
        distinct_keys(a),
        distinct_keys(b),
        a.to_set() == b.to_set(),
    ensures
        keyed(a) == keyed(b),
{
    assert forall|k: K| #[trigger] keyed(a).contains_key(k) implies keyed(b).contains_key(k)
        && keyed(b)[k] == keyed(a)[k] by {
        lemma_keyed_one_way(a, b, k);
    }
    assert forall|k: K| #[trigger] keyed(b).contains_key(k) implies keyed(a).contains_key(k) by {
        lemma_keyed_one_way(b, a, k);
    }
    assert(keyed(a) =~= keyed(b));
}

proof fn lemma_keyed_one_way<K, T>(a: Seq<(K, T)>, b: Seq<(K, T)>, k: K)
    requires
        distinct_keys(a),
        distinct_keys(b),
        a.to_set() == b.to_set(),
        keyed(a).contains_key(k),
    ensures
        keyed(b).contains_key(k),
        keyed(b)[k] == keyed(a)[k],
{
    let i = position_of(a, k);
    lemma_keyed_at(a, i);
    assert(a.contains(a[i]));
    assert(a.to_set().contains(a[i]));
    assert(b.to_set().contains(a[i]));
    assert(b.contains(a[i]));
    let j = choose|j: int| 0 <= j < b.len() && b[j] == a[i];
    lemma_keyed_at(b, j);
}

} // verus!
