//! Association lists: sequences of key-value pairs in which no key occurs
//! twice, read as the finite maps they stand for.
use vstd::prelude::*;
use crate::order::strict_total;

verus! {

/// The map that a sequence of pairs stands for, each pair overriding those
/// before it with the same key.
pub open spec fn map_of<K, V>(s: Seq<(K, V)>) -> Map<K, V>
    decreases s.len(),
{
    if s.len() == 0 {
        Map::empty()
    } else {
        map_of(s.drop_last()).insert(s.last().0, s.last().1)
    }
}

/// No key occurs twice in the sequence.
pub open spec fn unique_keys<K, V>(s: Seq<(K, V)>) -> bool {
    forall|i: int, j: int| 0 <= i < j < s.len() ==> s[i].0 != s[j].0
}

/// Whether `k` is the key of one of the pairs.
pub open spec fn has_key<K, V>(s: Seq<(K, V)>, k: K) -> bool {
    exists|i: int| 0 <= i < s.len() && s[i].0 == k
}

/// Whether the map gives the key of the pair the pair's value.
pub open spec fn maps_pair<K, V>(m: Map<K, V>, p: (K, V)) -> bool {
    m.dom().contains(p.0) && m[p.0] == p.1
}

/// The map of a sequence holds exactly its keys, and is finite.
pub proof fn lemma_map_of_dom<K, V>(s: Seq<(K, V)>)
    ensures
        map_of(s).dom().finite(),
        forall|k: K| #[trigger] map_of(s).dom().contains(k) <==> has_key(s, k),
    decreases s.len(),
{
    if s.len() > 0 {
        let t = s.drop_last();
        lemma_map_of_dom(t);
        assert forall|k: K| #[trigger] map_of(s).dom().contains(k) <==> has_key(s, k) by {
            if has_key(s, k) {
                let i = choose|i: int| 0 <= i < s.len() && s[i].0 == k;
                if i < s.len() - 1 {
                    assert(t[i] == s[i]);
                }
            }
            if has_key(t, k) {
                let i = choose|i: int| 0 <= i < t.len() && t[i].0 == k;
                assert(s[i] == t[i]);
            }
        }
    }
}

/// In a sequence without repeated keys, each key maps to the value paired
/// with it, and the map has as many keys as the sequence has pairs.
pub proof fn lemma_map_of_unique<K, V>(s: Seq<(K, V)>)
    requires
        unique_keys(s),
    ensures
        forall|i: int| 0 <= i < s.len() ==> #[trigger] map_of(s)[s[i].0] == s[i].1,
        map_of(s).dom().len() == s.len(),
    decreases s.len(),
{
    lemma_map_of_dom(s);
    if s.len() > 0 {
        let t = s.drop_last();
        assert(unique_keys(t)) by {
            assert forall|i: int, j: int| 0 <= i < j < t.len() implies t[i].0 != t[j].0 by {
                assert(t[i] == s[i] && t[j] == s[j]);
            }
        }
        lemma_map_of_unique(t);
        lemma_map_of_dom(t);
        assert(!map_of(t).dom().contains(s.last().0)) by {
            if has_key(t, s.last().0) {
                let i = choose|i: int| 0 <= i < t.len() && t[i].0 == s.last().0;
                assert(s[i] == t[i]);
            }
        }
        assert forall|i: int| 0 <= i < s.len() implies #[trigger] map_of(s)[s[i].0] == s[i].1 by {
            if i < s.len() - 1 {
                assert(s[i] == t[i]);
            }
        }
    }
}

/// Appending a pair with a new key keeps the keys unique, and adds the pair
/// to the map.
pub proof fn lemma_push_new_key<K, V>(s: Seq<(K, V)>, k: K, v: V)
    requires
        unique_keys(s),
        !has_key(s, k),
    ensures
        unique_keys(s.push((k, v))),
        map_of(s.push((k, v))) == map_of(s).insert(k, v),
{
    let t = s.push((k, v));
    assert(t.drop_last() =~= s);
    assert forall|i: int, j: int| 0 <= i < j < t.len() implies t[i].0 != t[j].0 by {
        if j == s.len() {
            assert(t[i] == s[i]);
        } else {
            assert(t[i] == s[i] && t[j] == s[j]);
        }
    }
}

/// Replacing the value of the pair at `i` keeps the keys unique, and changes
/// the map at that key only.
pub proof fn lemma_update_value<K, V>(s: Seq<(K, V)>, i: int, v: V)
    requires
        unique_keys(s),
        0 <= i < s.len(),
    ensures
        unique_keys(s.update(i, (s[i].0, v))),
        map_of(s.update(i, (s[i].0, v))) == map_of(s).insert(s[i].0, v),
{
    let t = s.update(i, (s[i].0, v));
    assert forall|a: int, b: int| 0 <= a < b < t.len() implies t[a].0 != t[b].0 by {
        assert(t[a].0 == s[a].0 && t[b].0 == s[b].0);
    }
    lemma_map_of_dom(s);
    lemma_map_of_dom(t);
    lemma_map_of_unique(s);
    lemma_map_of_unique(t);
    let m = map_of(s).insert(s[i].0, v);
    assert forall|k: K| #[trigger] map_of(t).dom().contains(k) <==> m.dom().contains(k) by {
        if has_key(s, k) {
            let j = choose|j: int| 0 <= j < s.len() && s[j].0 == k;
            assert(t[j].0 == k);
        }
        if has_key(t, k) {
            let j = choose|j: int| 0 <= j < t.len() && t[j].0 == k;
            assert(s[j].0 == k);
        }
    }
    assert forall|k: K| #[trigger] map_of(t).dom().contains(k) implies map_of(t)[k] == m[k] by {
        let j = choose|j: int| 0 <= j < t.len() && t[j].0 == k;
        assert(map_of(t)[t[j].0] == t[j].1);
        if j != i {
            assert(t[j] == s[j]);
            assert(map_of(s)[s[j].0] == s[j].1);
        }
    }
    assert(map_of(t) =~= m);
}

/// Two sequences without repeated keys, of the same length, stand for the
/// same map when each pair of the first is a pair of the second's map.
pub proof fn lemma_same_map<K, V>(s: Seq<(K, V)>, t: Seq<(K, V)>)
    requires
        unique_keys(s),
        unique_keys(t),
        s.len() == t.len(),
        forall|i: int| 0 <= i < s.len() ==> #[trigger] maps_pair(map_of(t), s[i]),
    ensures
        map_of(s) == map_of(t),
{
    lemma_map_of_dom(s);
    lemma_map_of_dom(t);
    lemma_map_of_unique(s);
    lemma_map_of_unique(t);
    assert(map_of(s).dom().subset_of(map_of(t).dom())) by {
        assert forall|k: K| #[trigger] map_of(s).dom().contains(k) implies map_of(t).dom().contains(k) by {
            let i = choose|i: int| 0 <= i < s.len() && s[i].0 == k;
            assert(maps_pair(map_of(t), s[i]));
        }
    }
    vstd::set_lib::lemma_subset_equality(map_of(s).dom(), map_of(t).dom());
    assert forall|k: K| #[trigger] map_of(s).dom().contains(k) implies map_of(s)[k] == map_of(t)[k] by {
        let i = choose|i: int| 0 <= i < s.len() && s[i].0 == k;
        assert(map_of(s)[s[i].0] == s[i].1);
        assert(maps_pair(map_of(t), s[i]));
    }
    assert(map_of(s) =~= map_of(t));
}

/// Inserting a pair with a new key anywhere keeps the keys unique, and
/// adds the pair to the map.
pub proof fn lemma_insert_new_key<K, V>(s: Seq<(K, V)>, p: int, k: K, v: V)
    requires
        unique_keys(s),
        !has_key(s, k),
        0 <= p <= s.len(),
    ensures
        unique_keys(s.insert(p, (k, v))),
        map_of(s.insert(p, (k, v))) == map_of(s).insert(k, v),
{
    let t = s.insert(p, (k, v));
    let u = s.push((k, v));
    lemma_push_new_key(s, k, v);
    assert forall|a: int, b: int| 0 <= a < b < t.len() implies t[a].0 != t[b].0 by {
        if a < p && b < p {
            assert(t[a] == s[a] && t[b] == s[b]);
        } else if a < p && b == p {
            assert(t[a] == s[a]);
        } else if a < p {
            assert(t[a] == s[a] && t[b] == s[b - 1]);
        } else if a == p {
            assert(t[b] == s[b - 1]);
        } else {
            assert(t[a] == s[a - 1] && t[b] == s[b - 1]);
        }
    }
    lemma_map_of_dom(s);
    lemma_map_of_unique(s);
    assert forall|i: int| 0 <= i < t.len() implies #[trigger] maps_pair(map_of(u), t[i]) by {
        if i < p {
            assert(t[i] == s[i]);
            assert(map_of(s).dom().contains(s[i].0));
        } else if i > p {
            assert(t[i] == s[i - 1]);
            assert(map_of(s).dom().contains(s[i - 1].0));
        }
    }
    lemma_same_map(t, u);
}

/// The keys are in strictly ascending order under `lt`.
pub open spec fn ascending_by<K, V>(s: Seq<(K, V)>, lt: spec_fn(K, K) -> bool) -> bool {
    forall|i: int, j: int| 0 <= i < j < s.len() ==> lt(s[i].0, s[j].0)
}

/// Whether `p` is where the ascending order puts `key`: every key before it
/// is smaller, and the key at it, if any, is larger or equal.
pub open spec fn is_place_of<K, V>(s: Seq<(K, V)>, key: K, p: int, lt: spec_fn(K, K) -> bool) -> bool {
    &&& 0 <= p <= s.len()
    &&& forall|j: int| 0 <= j < p ==> lt(#[trigger] s[j].0, key)
}

/// Keys in strictly ascending order are unique.
pub proof fn lemma_ascending_unique<K, V>(s: Seq<(K, V)>, lt: spec_fn(K, K) -> bool)
    requires
        strict_total(lt),
        ascending_by(s, lt),
    ensures
        unique_keys(s),
{
    assert forall|i: int, j: int| 0 <= i < j < s.len() implies s[i].0 != s[j].0 by {
        assert(lt(s[i].0, s[j].0));
        if s[i].0 == s[j].0 {
            assert(!lt(s[i].0, s[i].0));
        }
    }
}

/// A key that is not at its place in the ascending order is not among the
/// keys.
pub proof fn lemma_ascending_absent<K, V>(s: Seq<(K, V)>, key: K, p: int, lt: spec_fn(K, K) -> bool)
    requires
        strict_total(lt),
        ascending_by(s, lt),
        is_place_of(s, key, p, lt),
        p == s.len() || lt(key, s[p].0),
    ensures
        !has_key(s, key),
{
    if has_key(s, key) {
        let j = choose|j: int| 0 <= j < s.len() && s[j].0 == key;
        if j < p {
            assert(lt(s[j].0, key));
            assert(lt(key, key));
        } else if j == p {
            assert(lt(key, key));
        } else {
            assert(lt(s[p].0, s[j].0));
            assert(lt(key, s[p].0) && lt(s[p].0, key));
            assert(lt(key, key));
        }
    }
}

/// Inserting a new key at its place keeps the keys in ascending order.
pub proof fn lemma_ascending_insert<K, V>(
    s: Seq<(K, V)>,
    p: int,
    k: K,
    v: V,
    lt: spec_fn(K, K) -> bool,
)
    requires
        strict_total(lt),
        ascending_by(s, lt),
        is_place_of(s, k, p, lt),
        p == s.len() || lt(k, s[p].0),
    ensures
        ascending_by(s.insert(p, (k, v)), lt),
{
    let t = s.insert(p, (k, v));
    assert forall|i: int, j: int| 0 <= i < j < t.len() implies lt(t[i].0, t[j].0) by {
        if i < p && j < p {
            assert(t[i] == s[i] && t[j] == s[j]);
        } else if i < p && j == p {
            assert(t[i] == s[i]);
        } else if i < p {
            assert(t[i] == s[i] && t[j] == s[j - 1]);
            assert(lt(s[i].0, k) && lt(k, s[p].0));
            if j - 1 > p {
                assert(lt(s[p].0, s[j - 1].0));
            }
        } else if i == p {
            assert(t[j] == s[j - 1]);
            if j - 1 > p {
                assert(lt(k, s[p].0) && lt(s[p].0, s[j - 1].0));
            }
        } else {
            assert(t[i] == s[i - 1] && t[j] == s[j - 1]);
        }
    }
}

} // verus!
