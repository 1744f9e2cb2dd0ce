//! Ordered maps written as sequences of key-value pairs.
//!
//! This is the model of the insertion-ordered maps that hold an archive's
//! files and a size table's entries: keys occur once, a new key goes last, a
//! known key keeps its place, and a removed pair's place is taken by the last
//! pair.

use vstd::prelude::*;

verus! {

/// The first position of `key` in `s`, or -1.
pub open spec fn index_of<K, V>(s: Seq<(K, V)>, key: K) -> int
    decreases s.len(),
{
    if s.len() == 0 {
        -1
    } else {
        let before = index_of(s.drop_last(), key);
        if before >= 0 {
            before
        } else if s.last().0 == key {
            s.len() - 1
        } else {
            -1
        }
    }
}

/// The value that `key` has in `s`.
pub open spec fn lookup<K, V>(s: Seq<(K, V)>, key: K) -> Option<V> {
    let i = index_of(s, key);
    if i < 0 {
        None
    } else {
        Some(s[i].1)
    }
}

/// The value of the last pair with `key`.
pub open spec fn lookup_last<K, V>(s: Seq<(K, V)>, key: K) -> Option<V>
    decreases s.len(),
{
    if s.len() == 0 {
        None
    } else if s.last().0 == key {
        Some(s.last().1)
    } else {
        lookup_last(s.drop_last(), key)
    }
}

/// `a` and `b` give every key the same value, `a` by its last pair with the
/// key and `b` by its first.
pub open spec fn agrees<K, V>(a: Seq<(K, V)>, b: Seq<(K, V)>) -> bool {
    forall|key: K| #[trigger] lookup_last(a, key) == lookup(b, key)
}

/// No key occurs twice in `s`.
pub open spec fn distinct_keys<K, V>(s: Seq<(K, V)>) -> bool {
    forall|i: int, j: int| 0 <= i < j < s.len() ==> (#[trigger] s[i]).0 != (#[trigger] s[j]).0
}

/// `s` after `key` was set to `value`: in its old place if `s` had it, else
/// last.
pub open spec fn upsert<K, V>(s: Seq<(K, V)>, key: K, value: V) -> Seq<(K, V)> {
    let i = index_of(s, key);
    if i < 0 {
        s.push((key, value))
    } else {
        s.update(i, (key, value))
    }
}

/// `s` after `key` was removed: the last pair moves into its place.
pub open spec fn swap_removed<K, V>(s: Seq<(K, V)>, key: K) -> Seq<(K, V)> {
    let i = index_of(s, key);
    if i < 0 {
        s
    } else {
        s.update(i, s.last()).drop_last()
    }
}

/// The map that results from setting the pairs of `items` one after another.
pub open spec fn collected<K, V>(items: Seq<(K, V)>) -> Seq<(K, V)>
    decreases items.len(),
{
    if items.len() == 0 {
        Seq::empty()
    } else {
        upsert(collected(items.drop_last()), items.last().0, items.last().1)
    }
}

/// `index_of` finds the first pair with the key, and none where there is none.
pub proof fn index_of_spec<K, V>(s: Seq<(K, V)>, key: K)
    ensures
        -1 <= index_of(s, key) < s.len(),
        index_of(s, key) >= 0 ==> s[index_of(s, key)].0 == key,
        forall|k: int| 0 <= k < s.len() && (index_of(s, key) < 0 || k < index_of(s, key)) ==> (
        #[trigger] s[k]).0 != key,
    decreases s.len(),
{
    if s.len() > 0 {
        let t = s.drop_last();
        index_of_spec(t, key);
        assert forall|k: int|
            0 <= k < s.len() && (index_of(s, key) < 0 || k < index_of(s, key)) implies (
        #[trigger] s[k]).0 != key by {
            if k < t.len() {
                assert(t[k] == s[k]);
            }
        }
    }
}

/// With distinct keys, the pair at position `i` is the one `index_of` finds
/// for its key.
pub proof fn index_of_unique<K, V>(s: Seq<(K, V)>, i: int)
    requires
        distinct_keys(s),
        0 <= i < s.len(),
    ensures
        index_of(s, s[i].0) == i,
{
    index_of_spec(s, s[i].0);
    let found = index_of(s, s[i].0);
    if found < 0 {
        assert(s[i].0 != s[i].0);
    } else if found < i {
        assert(s[found].0 != s[i].0);
    } else if found > i {
        assert(s[i].0 != s[i].0);
    }
}

/// Setting a key keeps the keys distinct and gives the key its value; every
/// other key keeps what it had.
pub proof fn upsert_spec<K, V>(s: Seq<(K, V)>, key: K, value: V)
    requires
        distinct_keys(s),
    ensures
        distinct_keys(upsert(s, key, value)),
        lookup(upsert(s, key, value), key) == Some(value),
        forall|other: K| other != key ==> lookup(upsert(s, key, value), other) == lookup(s, other),
{
    let t = upsert(s, key, value);
    let i = index_of(s, key);
    index_of_spec(s, key);
    assert(distinct_keys(t)) by {
        assert forall|a: int, b: int| 0 <= a < b < t.len() implies (#[trigger] t[a]).0 != (
        #[trigger] t[b]).0 by {
            if i < 0 {
                if b == s.len() {
                    assert(s[a].0 != key);
                } else {
                    assert(s[a].0 != s[b].0);
                }
            } else {
                if a == i {
                    assert(s[i].0 != s[b].0);
                } else if b == i {
                    assert(s[a].0 != s[i].0);
                } else {
                    assert(s[a].0 != s[b].0);
                }
            }
        }
    }
    let at = if i < 0 {
        s.len() as int
    } else {
        i
    };
    assert(t[at] == (key, value));
    index_of_unique(t, at);
    assert forall|other: K| other != key implies lookup(t, other) == lookup(s, other) by {
        let j = index_of(s, other);
        index_of_spec(s, other);
        index_of_spec(t, other);
        let k = index_of(t, other);
        if j >= 0 {
            assert(t[j] == s[j]);
            index_of_unique(t, j);
        } else if k >= 0 {
            assert(k != at);
            assert(t[k] == s[k]);
            assert(s[k].0 != other);
        }
    }
}

/// Removing a key keeps the keys distinct and leaves the key without a value;
/// every other key keeps what it had.
pub proof fn swap_removed_spec<K, V>(s: Seq<(K, V)>, key: K)
    requires
        distinct_keys(s),
    ensures
        distinct_keys(swap_removed(s, key)),
        lookup(swap_removed(s, key), key) is None,
        forall|other: K| other != key ==> lookup(swap_removed(s, key), other) == lookup(s, other),
{
    let t = swap_removed(s, key);
    let i = index_of(s, key);
    index_of_spec(s, key);
    let last = s.len() - 1;
    // where each pair of `t` stood in `s`
    let origin = |a: int|
        if i >= 0 && a == i {
            last
        } else {
            a
        };
    assert forall|a: int| 0 <= a < t.len() implies #[trigger] t[a] == s[origin(a)] && 0
        <= origin(a) < s.len() && (i >= 0 ==> origin(a) != i || i == last) by {}
    assert(distinct_keys(t)) by {
        assert forall|a: int, b: int| 0 <= a < b < t.len() implies (#[trigger] t[a]).0 != (
        #[trigger] t[b]).0 by {
            let x = origin(a);
            let y = origin(b);
            assert(t[a] == s[x]);
            assert(t[b] == s[y]);
            if x < y {
                assert(s[x].0 != s[y].0);
            } else {
                assert(s[y].0 != s[x].0);
            }
        }
    }
    index_of_spec(t, key);
    if index_of(t, key) >= 0 {
        let k = index_of(t, key);
        assert(t[k] == s[origin(k)]);
        if i < 0 {
            assert(s[k].0 != key);
        } else {
            index_of_unique(s, origin(k));
        }
    }
    assert forall|other: K| other != key implies lookup(t, other) == lookup(s, other) by {
        let j = index_of(s, other);
        index_of_spec(s, other);
        index_of_spec(t, other);
        let k = index_of(t, other);
        if j >= 0 {
            // the pair stays, at its place or at the place of the removed one
            let now = if i >= 0 && j == last {
                i
            } else {
                j
            };
            assert(j != i);
            assert(t[now] == s[j]);
            index_of_unique(t, now);
        } else if k >= 0 {
            assert(t[k] == s[origin(k)]);
            assert(s[origin(k)].0 != other);
        }
    }
}

/// The last pair with a key is a pair of the sequence, and no later pair has
/// the key.
pub proof fn lookup_last_spec<K, V>(s: Seq<(K, V)>, key: K)
    ensures
        lookup_last(s, key) is Some <==> exists|i: int| 0 <= i < s.len() && (#[trigger] s[i]).0
            == key,
        lookup_last(s, key) matches Some(v) ==> exists|i: int|
            0 <= i < s.len() && #[trigger] s[i] == (key, v),
    decreases s.len(),
{
    if s.len() > 0 {
        let t = s.drop_last();
        lookup_last_spec(t, key);
        if s.last().0 == key {
            assert(s[s.len() - 1].0 == key);
            assert(s[s.len() - 1] == (key, s.last().1));
        } else {
            if lookup_last(t, key) is Some {
                let i = choose|i: int| 0 <= i < t.len() && (#[trigger] t[i]).0 == key;
                assert(s[i].0 == key);
                let v = lookup_last(t, key).unwrap();
                let j = choose|j: int| 0 <= j < t.len() && #[trigger] t[j] == (key, v);
                assert(s[j] == (key, v));
            }
            if exists|i: int| 0 <= i < s.len() && (#[trigger] s[i]).0 == key {
                let i = choose|i: int| 0 <= i < s.len() && (#[trigger] s[i]).0 == key;
                assert(t[i].0 == key);
            }
        }
    }
}

/// What a key has in the collected map is what its last item gave it.
pub proof fn collected_lookup<K, V>(items: Seq<(K, V)>, key: K)
    ensures
        lookup(collected(items), key) == lookup_last(items, key),
    decreases items.len(),
{
    if items.len() > 0 {
        let rest = items.drop_last();
        collected_lookup(rest, key);
        collected_distinct(rest);
        upsert_spec(collected(rest), items.last().0, items.last().1);
    }
}

/// With distinct keys the first pair of a key is also its last.
pub proof fn lookup_last_distinct<K, V>(s: Seq<(K, V)>, key: K)
    requires
        distinct_keys(s),
    ensures
        lookup_last(s, key) == lookup(s, key),
    decreases s.len(),
{
    index_of_spec(s, key);
    if s.len() > 0 {
        let t = s.drop_last();
        assert(distinct_keys(t)) by {
            assert forall|i: int, j: int| 0 <= i < j < t.len() implies (#[trigger] t[i]).0 != (
            #[trigger] t[j]).0 by {
                assert(s[i].0 != s[j].0);
            }
        }
        lookup_last_distinct(t, key);
        index_of_spec(t, key);
        if s.last().0 == key {
            index_of_unique(s, s.len() - 1);
        }
    }
}

/// What was collected has distinct keys.
pub proof fn collected_distinct<K, V>(items: Seq<(K, V)>)
    ensures
        distinct_keys(collected(items)),
    decreases items.len(),
{
    if items.len() > 0 {
        collected_distinct(items.drop_last());
        upsert_spec(collected(items.drop_last()), items.last().0, items.last().1);
    }
}

/// Every pair of what was collected is one of the items.
pub proof fn collected_from_items<K, V>(items: Seq<(K, V)>)
    ensures
        forall|i: int|
            0 <= i < collected(items).len() ==> items.contains(#[trigger] collected(items)[i]),
    decreases items.len(),
{
    if items.len() > 0 {
        let rest = items.drop_last();
        collected_from_items(rest);
        let c = collected(rest);
        let t = collected(items);
        index_of_spec(c, items.last().0);
        assert forall|i: int| 0 <= i < t.len() implies items.contains(#[trigger] t[i]) by {
            if t[i] == items.last() {
                assert(items[items.len() - 1] == t[i]);
            } else {
                assert(t[i] == c[i]);
                assert(rest.contains(c[i]));
                let k = choose|k: int| 0 <= k < rest.len() && rest[k] == c[i];
                assert(items[k] == c[i]);
            }
        }
    }
}

/// What was collected is no longer than the items.
pub proof fn collected_len<K, V>(items: Seq<(K, V)>)
    ensures
        collected(items).len() <= items.len(),
    decreases items.len(),
{
    if items.len() > 0 {
        collected_len(items.drop_last());
        index_of_spec(collected(items.drop_last()), items.last().0);
    }
}

/// Every pair of a map after a key was set is the new pair or an old one.
pub proof fn upsert_pairs<K, V>(s: Seq<(K, V)>, key: K, value: V)
    ensures
        forall|i: int|
            0 <= i < upsert(s, key, value).len() ==> (#[trigger] upsert(s, key, value)[i]) == (
                key,
                value,
            ) || s.contains(upsert(s, key, value)[i]),
        upsert(s, key, value).len() <= s.len() + 1,
        index_of(s, key) >= 0 ==> upsert(s, key, value).len() == s.len(),
{
    index_of_spec(s, key);
    let t = upsert(s, key, value);
    assert forall|i: int| 0 <= i < t.len() implies (#[trigger] t[i]) == (key, value) || s.contains(
        t[i],
    ) by {
        if t[i] != (key, value) {
            assert(s[i] == t[i]);
        }
    }
}

/// Every pair of a map after a key was removed is an old one.
pub proof fn swap_removed_pairs<K, V>(s: Seq<(K, V)>, key: K)
    ensures
        forall|i: int|
            0 <= i < swap_removed(s, key).len() ==> s.contains(#[trigger] swap_removed(s, key)[i]),
        swap_removed(s, key).len() <= s.len(),
{
    index_of_spec(s, key);
    let t = swap_removed(s, key);
    let at = index_of(s, key);
    assert forall|i: int| 0 <= i < t.len() implies s.contains(#[trigger] t[i]) by {
        if at >= 0 && i == at {
            assert(s[s.len() - 1] == t[i]);
        } else {
            assert(s[i] == t[i]);
        }
    }
}

} // verus!
