//! Per-key lists held as a vector of `(key, list)` entries with distinct
//! keys: lookup, totals and the facts the managers built on them rely on.
use vstd::prelude::*;

verus! {

/// The list stored under `key`, if any (the last entry with that key).
pub open spec fn lookup<V>(s: Seq<(String, Vec<V>)>, key: Seq<char>) -> Option<Seq<V>>
    decreases s.len(),
{
    if s.len() == 0 {
        None
    } else if s.last().0@ == key {
        Some(s.last().1@)
    } else {
        lookup(s.drop_last(), key)
    }
}

/// No key occurs twice.
pub open spec fn keys_distinct<V>(s: Seq<(String, Vec<V>)>) -> bool {
    forall|i: int, j: int| 0 <= i < j < s.len() ==> s[i].0@ != s[j].0@
}

/// Whether some entry carries `key`.
pub open spec fn has_key<V>(s: Seq<(String, Vec<V>)>, key: Seq<char>) -> bool {
    exists|i: int| 0 <= i < s.len() && s[i].0@ == key
}

/// Sum of the lengths of all lists.
pub open spec fn total_len<V>(s: Seq<(String, Vec<V>)>) -> nat
    decreases s.len(),
{
    if s.len() == 0 {
        0
    } else {
        total_len(s.drop_last()) + s.last().1@.len()
    }
}

/// Without the key, lookup finds nothing.
pub proof fn lemma_lookup_absent<V>(s: Seq<(String, Vec<V>)>, key: Seq<char>)
    requires
        !has_key(s, key),
    ensures
        lookup(s, key) is None,
    decreases s.len(),
{
    if s.len() > 0 {
        assert(!has_key(s.drop_last(), key)) by {
            if has_key(s.drop_last(), key) {
                let i = choose|i: int| 0 <= i < s.drop_last().len() && s.drop_last()[i].0@ == key;
                assert(s[i].0@ == key);
            }
        }
        assert(s[s.len() - 1].0@ != key);
        lemma_lookup_absent(s.drop_last(), key);
    }
}

/// With distinct keys, lookup finds the list of the entry carrying the key.
pub proof fn lemma_lookup_at<V>(s: Seq<(String, Vec<V>)>, i: int)
    requires
        keys_distinct(s),
        0 <= i < s.len(),
    ensures
        lookup(s, s[i].0@) == Some(s[i].1@),
    decreases s.len(),
{
    if i < s.len() - 1 {
        assert(s.last().0@ != s[i].0@);
        let t = s.drop_last();
        assert(t[i] == s[i]);
        assert(keys_distinct(t)) by {
            assert forall|a: int, b: int| 0 <= a < b < t.len() implies t[a].0@ != t[b].0@ by {
                assert(t[a] == s[a] && t[b] == s[b]);
            }
        }
        lemma_lookup_at(t, i);
    }
}

/// Lookup after pushing an entry.
pub proof fn lemma_lookup_push<V>(s: Seq<(String, Vec<V>)>, e: (String, Vec<V>), key: Seq<char>)
    ensures
        lookup(s.push(e), key) == (if e.0@ == key { Some(e.1@) } else { lookup(s, key) }),
{
    assert(s.push(e).drop_last() =~= s);
}

/// Lookup after replacing the list of an entry (the key stays).
pub proof fn lemma_lookup_update<V>(s: Seq<(String, Vec<V>)>, i: int, e: (String, Vec<V>), key: Seq<char>)
    requires
        keys_distinct(s),
        0 <= i < s.len(),
        e.0@ == s[i].0@,
    ensures
        keys_distinct(s.update(i, e)),
        lookup(s.update(i, e), key) == (if key == s[i].0@ { Some(e.1@) } else { lookup(s, key) }),
{
    let t = s.update(i, e);
    assert(keys_distinct(t)) by {
        assert forall|a: int, b: int| 0 <= a < b < t.len() implies t[a].0@ != t[b].0@ by {
            assert(t[a].0@ == s[a].0@ && t[b].0@ == s[b].0@);
        }
    }
    if key == s[i].0@ {
        lemma_lookup_at(t, i);
    } else if has_key(s, key) {
        let j = choose|j: int| 0 <= j < s.len() && s[j].0@ == key;
        lemma_lookup_at(s, j);
        assert(t[j] == s[j]);
        lemma_lookup_at(t, j);
    } else {
        lemma_lookup_absent(s, key);
        assert(!has_key(t, key)) by {
            if has_key(t, key) {
                let j = choose|j: int| 0 <= j < t.len() && t[j].0@ == key;
                assert(t[j].0@ == s[j].0@);
            }
        }
        lemma_lookup_absent(t, key);
    }
}

/// The total after replacing one list.
pub proof fn lemma_total_update<V>(s: Seq<(String, Vec<V>)>, i: int, e: (String, Vec<V>))
    requires
        0 <= i < s.len(),
    ensures
        total_len(s.update(i, e)) == total_len(s) - s[i].1@.len() + e.1@.len(),
    decreases s.len(),
{
    let t = s.update(i, e);
    if i == s.len() - 1 {
        assert(t.drop_last() =~= s.drop_last());
    } else {
        assert(t.drop_last() =~= s.drop_last().update(i, e));
        lemma_total_update(s.drop_last(), i, e);
    }
}

/// The total after pushing an entry.
pub proof fn lemma_total_push<V>(s: Seq<(String, Vec<V>)>, e: (String, Vec<V>))
    ensures
        total_len(s.push(e)) == total_len(s) + e.1@.len(),
{
    assert(s.push(e).drop_last() =~= s);
}

/// Two entry sequences with the same keys, position by position.
pub open spec fn same_keys<V, W>(s: Seq<(String, Vec<V>)>, t: Seq<(String, Vec<W>)>) -> bool {
    &&& s.len() == t.len()
    &&& forall|i: int| 0 <= i < s.len() ==> s[i].0@ == t[i].0@
}

/// When two sequences have the same keys, one holds a key iff the other does,
/// and lookups in both land on the same position.
pub proof fn lemma_lookup_same_keys<V, W>(s: Seq<(String, Vec<V>)>, t: Seq<(String, Vec<W>)>, key: Seq<char>)
    requires
        keys_distinct(s),
        same_keys(s, t),
    ensures
        keys_distinct(t),
        lookup(s, key) is None <==> lookup(t, key) is None,
        has_key(s, key) ==> exists|i: int| 0 <= i < s.len() && s[i].0@ == key
            && lookup(s, key) == Some(s[i].1@) && lookup(t, key) == Some(t[i].1@),
{
    assert(keys_distinct(t)) by {
        assert forall|a: int, b: int| 0 <= a < b < t.len() implies t[a].0@ != t[b].0@ by {
            assert(s[a].0@ == t[a].0@ && s[b].0@ == t[b].0@);
        }
    }
    if has_key(s, key) {
        let i = choose|i: int| 0 <= i < s.len() && s[i].0@ == key;
        lemma_lookup_at(s, i);
        lemma_lookup_at(t, i);
    } else {
        lemma_lookup_absent(s, key);
        assert(!has_key(t, key)) by {
            if has_key(t, key) {
                let j = choose|j: int| 0 <= j < t.len() && t[j].0@ == key;
                assert(s[j].0@ == t[j].0@);
            }
        }
        lemma_lookup_absent(t, key);
    }
}

/// Position of the entry carrying `key`, if any.
pub fn find_key<V>(entries: &Vec<(String, Vec<V>)>, key: &String) -> (r: Option<usize>)
    requires
        keys_distinct(entries@),
    ensures
        r is None ==> !has_key(entries@, key@) && lookup(entries@, key@) is None,
        r matches Some(i) ==> i < entries@.len() && entries@[i as int].0@ == key@
            && lookup(entries@, key@) == Some(entries@[i as int].1@),
{
    let n = entries.len();
    let mut i: usize = 0;
    while i < n
        invariant
            n == entries@.len(),
            i <= n,
            keys_distinct(entries@),
            forall|j: int| 0 <= j < i ==> entries@[j].0@ != key@,
        decreases n - i,
    {
        if entries[i].0 == *key {
            proof { lemma_lookup_at(entries@, i as int); }
            return Some(i);
        }
        i = i + 1;
    }
    proof { lemma_lookup_absent(entries@, key@); }
    None
}

} // verus!
