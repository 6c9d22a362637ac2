//! Keyed lookup over a sequence of records.
//!
//! Every table of the engine is a vector of records carrying their own
//! key (an asset id, an auction id, a bid id, an owner).  `find_by` is the
//! mathematical lookup that the executable scans implement, and the
//! lemmas here relate it to indexing, update and append, so that each
//! operation's effect on a whole table can be stated through `find_by`
//! alone.

use vstd::prelude::*;

verus! {

/// No two records of `s` share a key.
pub open spec fn keys_unique<T, K>(s: Seq<T>, key: spec_fn(T) -> K) -> bool {
    forall|i: int, j: int| 0 <= i < j < s.len() ==> key(s[i]) != key(s[j])
}

/// The record of `s` whose key is `k`, if one exists; when several share
/// the key, the last one.
pub open spec fn find_by<T, K>(s: Seq<T>, key: spec_fn(T) -> K, k: K) -> Option<T>
    decreases s.len(),
{
    if s.len() == 0 {
        None
    } else if key(s.last()) == k {
        Some(s.last())
    } else {
        find_by(s.drop_last(), key, k)
    }
}

/// With unique keys, the lookup returns exactly the record stored at any
/// index holding that key.
pub proof fn lemma_find_at<T, K>(s: Seq<T>, key: spec_fn(T) -> K, i: int)
    requires
        keys_unique(s, key),
        0 <= i < s.len(),
    ensures
        find_by(s, key, key(s[i])) == Some(s[i]),
    decreases s.len(),
{
    if i == s.len() - 1 {
    } else {
        assert(key(s.last()) != key(s[i]));
        assert(keys_unique(s.drop_last(), key));
        lemma_find_at(s.drop_last(), key, i);
    }
}

/// A key held by no record is not found.
pub proof fn lemma_find_absent<T, K>(s: Seq<T>, key: spec_fn(T) -> K, k: K)
    requires
        forall|i: int| 0 <= i < s.len() ==> key(s[i]) != k,
    ensures
        find_by(s, key, k) is None,
    decreases s.len(),
{
    if s.len() > 0 {
        lemma_find_absent(s.drop_last(), key, k);
    }
}

/// A found record is stored at some index.
pub proof fn lemma_find_exists<T, K>(s: Seq<T>, key: spec_fn(T) -> K, k: K)
    requires
        find_by(s, key, k) is Some,
    ensures
        exists|i: int|
            0 <= i < s.len() && s[i] == find_by(s, key, k).unwrap() && key(s[i]) == k,
    decreases s.len(),
{
    if key(s.last()) == k {
        assert(s[s.len() - 1] == s.last());
    } else {
        lemma_find_exists(s.drop_last(), key, k);
        let i = choose|i: int|
            0 <= i < s.drop_last().len() && s.drop_last()[i] == find_by(
                s.drop_last(),
                key,
                k,
            ).unwrap() && key(s.drop_last()[i]) == k;
        assert(s[i] == s.drop_last()[i]);
    }
}

/// Replacing the record at one index, keeping its key, changes only that
/// key's lookup.
pub proof fn lemma_find_update<T, K>(s: Seq<T>, key: spec_fn(T) -> K, i: int, x: T)
    requires
        keys_unique(s, key),
        0 <= i < s.len(),
        key(x) == key(s[i]),
    ensures
        keys_unique(s.update(i, x), key),
        find_by(s.update(i, x), key, key(x)) == Some(x),
        forall|w: K| w != key(x) ==> find_by(s.update(i, x), key, w) == find_by(s, key, w),
    decreases s.len(),
{
    let s2 = s.update(i, x);
    if i == s.len() - 1 {
        assert(s2.last() == x);
        assert(s2.drop_last() =~= s.drop_last());
        assert forall|w: K| w != key(x) implies find_by(s2, key, w) == find_by(s, key, w) by {
            assert(find_by(s2, key, w) == find_by(s2.drop_last(), key, w));
            assert(find_by(s, key, w) == find_by(s.drop_last(), key, w));
        }
    } else {
        assert(s2.last() == s.last());
        assert(keys_unique(s.drop_last(), key));
        assert(s2.drop_last() =~= s.drop_last().update(i, x));
        lemma_find_update(s.drop_last(), key, i, x);
        assert(key(s.last()) != key(x));
        assert forall|w: K| w != key(x) implies find_by(s2, key, w) == find_by(s, key, w) by {
            if key(s.last()) != w {
                assert(find_by(s2, key, w) == find_by(s2.drop_last(), key, w));
                assert(find_by(s, key, w) == find_by(s.drop_last(), key, w));
            }
        }
    }
}

/// Appending a record with a fresh key adds exactly that key's lookup.
pub proof fn lemma_find_push<T, K>(s: Seq<T>, key: spec_fn(T) -> K, x: T)
    requires
        keys_unique(s, key),
        forall|i: int| 0 <= i < s.len() ==> key(s[i]) != key(x),
    ensures
        keys_unique(s.push(x), key),
        find_by(s.push(x), key, key(x)) == Some(x),
        forall|w: K| w != key(x) ==> find_by(s.push(x), key, w) == find_by(s, key, w),
{
    let s2 = s.push(x);
    assert(s2.last() == x);
    assert(s2.drop_last() =~= s);
    assert(forall|i: int| 0 <= i < s.len() ==> s2[i] == s[i]);
    assert forall|w: K| w != key(x) implies find_by(s2, key, w) == find_by(s, key, w) by {
        assert(find_by(s2, key, w) == find_by(s2.drop_last(), key, w));
    }
}

/// With unique keys, an unfound key is held by no record.
pub proof fn lemma_absent_keys<T, K>(s: Seq<T>, key: spec_fn(T) -> K, k: K)
    requires
        keys_unique(s, key),
        find_by(s, key, k) is None,
    ensures
        forall|i: int| 0 <= i < s.len() ==> key(s[i]) != k,
{
    assert forall|i: int| 0 <= i < s.len() implies key(s[i]) != k by {
        if key(s[i]) == k {
            lemma_find_at(s, key, i);
        }
    }
}

} // verus!
