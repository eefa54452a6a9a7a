//! Association lists with distinct keys: the spec-level lookup every stored
//! map of this crate is specified against, and the lemmas that say how a
//! lookup changes under update, append, and removal.
use vstd::prelude::*;

verus! {

/// The value stored under `key`: the first (and, with distinct keys, only)
/// entry that carries it.
pub open spec fn find_assoc<K, V>(s: Seq<(K, V)>, key: K) -> Option<V>
    decreases s.len(),
{
    if s.len() == 0 {
        Option::None
    } else if s[0].0 == key {
        Option::Some(s[0].1)
    } else {
        find_assoc(s.drop_first(), key)
    }
}

/// Every key appears at most once.
pub open spec fn assoc_keys_distinct<K, V>(s: Seq<(K, V)>) -> bool {
    forall|p: int, q: int| 0 <= p < q < s.len() ==> (#[trigger] s[p]).0 != (#[trigger] s[q]).0
}

/// If a key is absent, no entry carries it.
pub proof fn lemma_find_assoc_none<K, V>(s: Seq<(K, V)>, key: K)
    requires
        find_assoc(s, key) is None,
    ensures
        forall|i: int| 0 <= i < s.len() ==> (#[trigger] s[i]).0 != key,
    decreases s.len(),
{
    if s.len() > 0 {
        lemma_find_assoc_none(s.drop_first(), key);
        assert forall|i: int| 0 <= i < s.len() implies (#[trigger] s[i]).0 != key by {
            if i > 0 {
                assert(s[i] == s.drop_first()[i - 1]);
            }
        }
    }
}

/// Conversely, a key no entry carries is absent.
pub proof fn lemma_find_assoc_absent<K, V>(s: Seq<(K, V)>, key: K)
    requires
        forall|i: int| 0 <= i < s.len() ==> (#[trigger] s[i]).0 != key,
    ensures
        find_assoc(s, key) is None,
    decreases s.len(),
{
    if s.len() > 0 {
        let t = s.drop_first();
        assert forall|i: int| 0 <= i < t.len() implies (#[trigger] t[i]).0 != key by {
            assert(t[i] == s[i + 1]);
        }
        lemma_find_assoc_absent(t, key);
    }
}

/// Skipping entries that do not carry the key leaves the lookup unchanged.
pub proof fn lemma_find_assoc_skip<K, V>(s: Seq<(K, V)>, key: K, i: int)
    requires
        0 <= i <= s.len(),
        forall|k: int| 0 <= k < i ==> (#[trigger] s[k]).0 != key,
    ensures
        find_assoc(s, key) == find_assoc(s.skip(i), key),
    decreases i,
{
    if i > 0 {
        assert(s[0].0 != key);
        assert(s.drop_first() =~= s.skip(1));
        lemma_find_assoc_skip(s.skip(1), key, i - 1);
        assert(s.skip(1).skip(i - 1) =~= s.skip(i));
    } else {
        assert(s.skip(0) =~= s);
    }
}

/// Distinctness carries over to the tail.
pub proof fn lemma_assoc_distinct_tail<K, V>(s: Seq<(K, V)>)
    requires
        assoc_keys_distinct(s),
        s.len() > 0,
    ensures
        assoc_keys_distinct(s.drop_first()),
{
    assert forall|p: int, q: int|
        0 <= p < q < s.drop_first().len() implies (#[trigger] s.drop_first()[p]).0 != (
    #[trigger] s.drop_first()[q]).0 by {
        assert(s.drop_first()[p] == s[p + 1]);
        assert(s.drop_first()[q] == s[q + 1]);
    }
}

/// With distinct keys, the entry holding a key is what the lookup returns.
pub proof fn lemma_find_assoc_at<K, V>(s: Seq<(K, V)>, i: int)
    requires
        assoc_keys_distinct(s),
        0 <= i < s.len(),
    ensures
        find_assoc(s, s[i].0) == Option::Some(s[i].1),
{
    assert forall|k: int| 0 <= k < i implies (#[trigger] s[k]).0 != s[i].0 by {}
    lemma_find_assoc_skip(s, s[i].0, i);
    assert(s.skip(i)[0] == s[i]);
}

/// How replacing the entry at `i` (which carries `key`) changes lookups.
pub proof fn lemma_find_assoc_update<K, V>(s: Seq<(K, V)>, i: int, key: K, v: V, probe: K)
    requires
        assoc_keys_distinct(s),
        0 <= i < s.len(),
        s[i].0 == key,
    ensures
        find_assoc(s.update(i, (key, v)), probe) == if probe == key {
            Option::Some(v)
        } else {
            find_assoc(s, probe)
        },
    decreases i,
{
    let t = s.update(i, (key, v));
    if i == 0 {
        assert(t[0] == (key, v));
        if probe != key {
            assert(t.drop_first() =~= s.drop_first());
        }
    } else {
        assert(t[0] == s[0]);
        assert(s[0].0 != key);
        assert(t.drop_first() =~= s.drop_first().update(i - 1, (key, v)));
        lemma_assoc_distinct_tail(s);
        lemma_find_assoc_update(s.drop_first(), i - 1, key, v, probe);
    }
}

/// How appending a fresh key changes lookups.
pub proof fn lemma_find_assoc_push<K, V>(s: Seq<(K, V)>, key: K, v: V, probe: K)
    requires
        find_assoc(s, key) is None,
    ensures
        find_assoc(s.push((key, v)), probe) == if probe == key {
            Option::Some(v)
        } else {
            find_assoc(s, probe)
        },
    decreases s.len(),
{
    let t = s.push((key, v));
    if s.len() == 0 {
        assert(t[0] == (key, v));
        assert(t.drop_first() =~= Seq::<(K, V)>::empty());
        assert(find_assoc(t.drop_first(), probe) is None);
        assert(find_assoc(s, probe) is None);
    } else {
        assert(t[0] == s[0]);
        assert(s[0].0 != key);
        assert(t.drop_first() =~= s.drop_first().push((key, v)));
        lemma_find_assoc_push(s.drop_first(), key, v, probe);
    }
}

/// Appending a fresh key keeps the keys distinct.
pub proof fn lemma_assoc_distinct_push<K, V>(s: Seq<(K, V)>, key: K, v: V)
    requires
        assoc_keys_distinct(s),
        find_assoc(s, key) is None,
    ensures
        assoc_keys_distinct(s.push((key, v))),
{
    let t = s.push((key, v));
    lemma_find_assoc_none(s, key);
    assert forall|p: int, q: int|
        0 <= p < q < t.len() implies (#[trigger] t[p]).0 != (#[trigger] t[q]).0 by {
        if q < s.len() {
            assert(s[p].0 != s[q].0);
        } else {
            assert(t[q] == (key, v));
            assert(s[p].0 != key);
        }
    }
}

/// Replacing an entry under its own key keeps the keys distinct.
pub proof fn lemma_assoc_distinct_update<K, V>(s: Seq<(K, V)>, i: int, key: K, v: V)
    requires
        assoc_keys_distinct(s),
        0 <= i < s.len(),
        s[i].0 == key,
    ensures
        assoc_keys_distinct(s.update(i, (key, v))),
{
    let t = s.update(i, (key, v));
    assert forall|p: int, q: int|
        0 <= p < q < t.len() implies (#[trigger] t[p]).0 != (#[trigger] t[q]).0 by {
        assert(s[p].0 != s[q].0);
        assert(t[p].0 == s[p].0 && t[q].0 == s[q].0);
    }
}

/// How removing the entry at `i` (which carries `key`) changes lookups.
pub proof fn lemma_find_assoc_remove<K, V>(s: Seq<(K, V)>, i: int, probe: K)
    requires
        assoc_keys_distinct(s),
        0 <= i < s.len(),
    ensures
        find_assoc(s.remove(i), probe) == if probe == s[i].0 {
            Option::None
        } else {
            find_assoc(s, probe)
        },
    decreases i,
{
    let t = s.remove(i);
    if i == 0 {
        assert(t =~= s.drop_first());
        if probe == s[0].0 {
            lemma_assoc_distinct_tail(s);
            assert forall|k: int| 0 <= k < t.len() implies (#[trigger] t[k]).0 != probe by {
                assert(t[k] == s[k + 1]);
            }
            lemma_find_assoc_absent(t, probe);
        }
    } else {
        assert(t[0] == s[0]);
        assert(t.drop_first() =~= s.drop_first().remove(i - 1));
        lemma_assoc_distinct_tail(s);
        lemma_find_assoc_remove(s.drop_first(), i - 1, probe);
        assert(s.drop_first()[i - 1] == s[i]);
        if probe == s[0].0 {
            assert(s[0].0 != s[i].0);
        }
    }
}

/// Removing an entry keeps the keys distinct.
pub proof fn lemma_assoc_distinct_remove<K, V>(s: Seq<(K, V)>, i: int)
    requires
        assoc_keys_distinct(s),
        0 <= i < s.len(),
    ensures
        assoc_keys_distinct(s.remove(i)),
{
    let t = s.remove(i);
    assert forall|p: int, q: int|
        0 <= p < q < t.len() implies (#[trigger] t[p]).0 != (#[trigger] t[q]).0 by {
        let p0 = if p < i {
            p
        } else {
            p + 1
        };
        let q0 = if q < i {
            q
        } else {
            q + 1
        };
        assert(t[p] == s[p0]);
        assert(t[q] == s[q0]);
        assert(s[p0].0 != s[q0].0);
    }
}

} // verus!
