//! Lists of values kept under string keys, searched from the newest entry.

use vstd::prelude::*;
use crate::text::str_equal;

verus! {

/// Index of the last entry kept under `key`.
pub open spec fn key_index<T>(s: Seq<(Seq<char>, T)>, key: Seq<char>) -> Option<int>
    decreases s.len(),
{
    if s.len() == 0 {
        None
    } else if s.last().0 == key {
        Some(s.len() - 1)
    } else {
        key_index(s.drop_last(), key)
    }
}

/// The value kept under `key`, if any.
pub open spec fn key_lookup<T>(s: Seq<(Seq<char>, T)>, key: Seq<char>) -> Option<T> {
    match key_index(s, key) {
        Some(i) => Some(s[i].1),
        None => None,
    }
}

/// Stores `value` under `key`: in place of the entry found, or as a new last entry.
pub open spec fn key_store<T>(s: Seq<(Seq<char>, T)>, key: Seq<char>, value: T) -> Seq<(Seq<char>, T)> {
    match key_index(s, key) {
        Some(i) => s.update(i, (key, value)),
        None => s.push((key, value)),
    }
}

pub proof fn lemma_key_index<T>(s: Seq<(Seq<char>, T)>, key: Seq<char>)
    ensures
        match key_index(s, key) {
            Some(i) => 0 <= i < s.len() && s[i].0 == key
                && forall|k: int| i < k < s.len() ==> s[k].0 != key,
            None => forall|k: int| 0 <= k < s.len() ==> s[k].0 != key,
        },
    decreases s.len(),
{
    if s.len() > 0 {
        lemma_key_index(s.drop_last(), key);
        if s.last().0 != key {
            match key_index(s.drop_last(), key) {
                Some(i) => {
                    assert forall|k: int| i < k < s.len() implies s[k].0 != key by {
                        if k < s.len() - 1 {
                            assert(s.drop_last()[k] == s[k]);
                        }
                    }
                },
                None => {
                    assert forall|k: int| 0 <= k < s.len() implies s[k].0 != key by {
                        if k < s.len() - 1 {
                            assert(s.drop_last()[k] == s[k]);
                        }
                    }
                },
            }
        }
    }
}

/// Entries under other keys are untouched by a store.
pub proof fn lemma_key_store_other<T>(s: Seq<(Seq<char>, T)>, key: Seq<char>, value: T, other: Seq<char>)
    requires
        other != key,
    ensures
        key_lookup(key_store(s, key, value), other) == key_lookup(s, other),
    decreases s.len(),
{
    lemma_key_index(s, key);
    lemma_key_index(s, other);
    let t = key_store(s, key, value);
    match key_index(s, key) {
        Some(i) => {
            lemma_key_index_update(s, i, (key, value), other);
        },
        None => {
            assert(t.drop_last() =~= s);
            assert(t.last().0 == key);
        },
    }
}

proof fn lemma_key_index_update<T>(s: Seq<(Seq<char>, T)>, i: int, e: (Seq<char>, T), other: Seq<char>)
    requires
        0 <= i < s.len(),
        s[i].0 == e.0,
        other != e.0,
    ensures
        key_index(s.update(i, e), other) == key_index(s, other),
    decreases s.len(),
{
    let t = s.update(i, e);
    if i == s.len() - 1 {
        assert(t.drop_last() =~= s.drop_last());
    } else {
        assert(t.drop_last() =~= s.drop_last().update(i, e));
        lemma_key_index_update(s.drop_last(), i, e, other);
    }
}

/// The value stored is the one found afterwards.
pub proof fn lemma_key_store_same<T>(s: Seq<(Seq<char>, T)>, key: Seq<char>, value: T)
    ensures
        key_lookup(key_store(s, key, value), key) == Some(value),
{
    lemma_key_index(s, key);
    let t = key_store(s, key, value);
    match key_index(s, key) {
        Some(i) => {
            lemma_key_index_after(s.update(i, (key, value)), i, key);
        },
        None => {},
    }
}

proof fn lemma_key_index_after<T>(s: Seq<(Seq<char>, T)>, i: int, key: Seq<char>)
    requires
        0 <= i < s.len(),
        s[i].0 == key,
        forall|k: int| i < k < s.len() ==> s[k].0 != key,
    ensures
        key_index(s, key) == Some(i),
    decreases s.len(),
{
    if i < s.len() - 1 {
        assert forall|k: int| i < k < s.len() - 1 implies s.drop_last()[k].0 != key by {
            assert(s.drop_last()[k] == s[k]);
        }
        lemma_key_index_after(s.drop_last(), i, key);
    }
}

/// The entry kept under `key` removed, if there is one.
pub open spec fn key_remove<T>(s: Seq<(Seq<char>, T)>, key: Seq<char>) -> Seq<(Seq<char>, T)> {
    match key_index(s, key) {
        Some(i) => s.remove(i),
        None => s,
    }
}

/// A list of string-keyed entries, as values.
pub open spec fn keyed_view<T>(v: Seq<(String, T)>) -> Seq<(Seq<char>, T)> {
    v.map_values(|p: (String, T)| (p.0@, p.1))
}

/// Finds the last entry kept under `key`.
pub fn find_key<T>(v: &Vec<(String, T)>, key: &str) -> (r: Option<usize>)
    ensures
        match r {
            Some(j) => key_index(keyed_view(v@), key@) == Some(j as int) && j < v@.len(),
            None => key_index(keyed_view(v@), key@).is_none(),
        },
{
    let ghost all = keyed_view(v@);
    let mut i: usize = v.len();
    assert(all.subrange(0, all.len() as int) =~= all);
    while i > 0
        invariant
            i <= v@.len(),
            all == keyed_view(v@),
            key_index(all, key@) == key_index(all.subrange(0, i as int), key@),
        decreases i,
    {
        let ghost pre = all.subrange(0, i as int);
        assert(pre.drop_last() =~= all.subrange(0, i - 1));
        if str_equal(v[i - 1].0.as_str(), key) {
            return Some(i - 1);
        }
        i = i - 1;
    }
    None
}

/// Stores `value` under `key`.
pub fn store_key<T>(v: &mut Vec<(String, T)>, key: String, value: T)
    ensures
        keyed_view(final(v)@) == key_store(keyed_view(old(v)@), key@, value),
{
    let ghost before = keyed_view(v@);
    proof {
        lemma_key_index(before, key@);
    }
    match find_key(v, key.as_str()) {
        Some(j) => {
            let ghost kv = key@;
            v.remove(j);
            v.insert(j, (key, value));
            assert(keyed_view(v@) =~= before.update(j as int, (kv, value)));
        },
        None => {
            let ghost kv = key@;
            v.push((key, value));
            assert(keyed_view(v@) =~= before.push((kv, value)));
        },
    }
}

/// Takes out the entry kept under `key`, if there is one.
pub fn take_key<T>(v: &mut Vec<(String, T)>, key: &str) -> (r: Option<T>)
    ensures
        keyed_view(final(v)@) == key_remove(keyed_view(old(v)@), key@),
        r == key_lookup(keyed_view(old(v)@), key@),
{
    let ghost before = keyed_view(v@);
    proof {
        lemma_key_index(before, key@);
    }
    match find_key(v, key) {
        Some(j) => {
            let (_, value) = v.remove(j);
            assert(keyed_view(v@) =~= before.remove(j as int));
            Some(value)
        },
        None => None,
    }
}

/// Values mapped in place: entries stay under the same keys.
pub open spec fn map_entries<A, B>(s: Seq<(Seq<char>, A)>, f: spec_fn(A) -> B) -> Seq<(Seq<char>, B)> {
    s.map_values(|p: (Seq<char>, A)| (p.0, f(p.1)))
}

/// Mapping values keeps where each key is found, and commutes with storing and looking up.
pub proof fn lemma_map_entries<A, B>(s: Seq<(Seq<char>, A)>, f: spec_fn(A) -> B, key: Seq<char>, v: A)
    ensures
        key_index(map_entries(s, f), key) == key_index(s, key),
        key_lookup(map_entries(s, f), key) == match key_lookup(s, key) { Some(a) => Some(f(a)), None => None },
        map_entries(key_store(s, key, v), f) == key_store(map_entries(s, f), key, f(v)),
    decreases s.len(),
{
    if s.len() > 0 {
        assert(map_entries(s, f).drop_last() =~= map_entries(s.drop_last(), f));
        lemma_map_entries(s.drop_last(), f, key, v);
    }
    lemma_key_index(s, key);
    match key_index(s, key) {
        Some(i) => {
            assert(map_entries(s.update(i, (key, v)), f) =~= map_entries(s, f).update(i, (key, f(v))));
        },
        None => {
            assert(map_entries(s.push((key, v)), f) =~= map_entries(s, f).push((key, f(v))));
        },
    }
}

} // verus!
