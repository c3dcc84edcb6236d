//! First-match lookup in association lists keyed by strings. The engine keeps
//! its name-keyed state (models by name, file hashes by path) as vectors of
//! pairs with unique keys.

use vstd::prelude::*;

use crate::text::str_eq;

verus! {

/// The value stored under `key`, taking the first matching pair.
pub open spec fn assoc_get<K, V>(s: Seq<(K, V)>, key: K) -> Option<V>
    decreases s.len(),
{
    if s.len() == 0 {
        None
    } else if s[0].0 == key {
        Some(s[0].1)
    } else {
        assoc_get(s.drop_first(), key)
    }
}

/// No pair carries `key`.
pub open spec fn assoc_absent<K, V>(s: Seq<(K, V)>, key: K) -> bool {
    forall|k: int| 0 <= k < s.len() ==> (#[trigger] s[k]).0 != key
}

/// Keys are pairwise distinct.
pub open spec fn assoc_unique<K, V>(s: Seq<(K, V)>) -> bool {
    forall|i: int, j: int| 0 <= i < j < s.len() ==> (#[trigger] s[i]).0 != (#[trigger] s[j]).0
}

pub proof fn lemma_assoc_get_present<K, V>(s: Seq<(K, V)>, key: K, i: int)
    requires
        0 <= i < s.len(),
        s[i].0 == key,
        forall|k: int| 0 <= k < i ==> (#[trigger] s[k]).0 != key,
    ensures
        assoc_get(s, key) == Some(s[i].1),
    decreases i,
{
    if i > 0 {
        lemma_assoc_get_present(s.drop_first(), key, i - 1);
    }
}

pub proof fn lemma_assoc_get_absent<K, V>(s: Seq<(K, V)>, key: K)
    requires
        assoc_absent(s, key),
    ensures
        assoc_get(s, key) is None,
    decreases s.len(),
{
    if s.len() > 0 {
        lemma_assoc_get_absent(s.drop_first(), key);
    }
}

/// Replacing the value at position `i` leaves every other key's lookup alone.
pub proof fn lemma_assoc_get_update<K, V>(s: Seq<(K, V)>, i: int, nv: V, k: K)
    requires
        0 <= i < s.len(),
        k != s[i].0,
    ensures
        assoc_get(s.update(i, (s[i].0, nv)), k) == assoc_get(s, k),
    decreases i,
{
    let t = s.update(i, (s[i].0, nv));
    if i == 0 {
        assert(t.drop_first() =~= s.drop_first());
    } else {
        if s[0].0 == k {
        } else {
            lemma_assoc_get_update(s.drop_first(), i - 1, nv, k);
            assert(t.drop_first() =~= s.drop_first().update(i - 1, (s.drop_first()[i - 1].0, nv)));
        }
    }
}

/// Appending a pair with a fresh key leaves every other key's lookup alone.
pub proof fn lemma_assoc_get_push<K, V>(s: Seq<(K, V)>, key: K, nv: V, k: K)
    requires
        k != key,
    ensures
        assoc_get(s.push((key, nv)), k) == assoc_get(s, k),
    decreases s.len(),
{
    let t = s.push((key, nv));
    if s.len() == 0 {
        assert(t.drop_first() =~= Seq::<(K, V)>::empty());
    } else {
        assert(t.drop_first() =~= s.drop_first().push((key, nv)));
        lemma_assoc_get_push(s.drop_first(), key, nv, k);
    }
}

/// The index of the first pair whose key equals `key`, if any.
pub fn assoc_index<V>(v: &Vec<(String, V)>, key: &str) -> (r: Option<usize>)
    ensures
        match r {
            Some(i) => i < v@.len() && v@[i as int].0@ == key@ && forall|k: int|
                0 <= k < i ==> (#[trigger] v@[k]).0@ != key@,
            None => forall|k: int| 0 <= k < v@.len() ==> (#[trigger] v@[k]).0@ != key@,
        },
{
    let mut i: usize = 0;
    while i < v.len()
        invariant
            i <= v@.len(),
            forall|k: int| 0 <= k < i ==> (#[trigger] v@[k]).0@ != key@,
        decreases v@.len() - i,
    {
        if str_eq(v[i].0.as_str(), key) {
            return Some(i);
        }
        i += 1;
    }
    None
}

} // verus!
