//! Keyed tables stored as vectors of entries with unique keys.
//!
//! The ledger keeps its pricing and billing tables in this shape: a
//! linear scan finds an entry, an upsert either rewrites the found slot
//! or appends. `assoc_lookup` is the one specification all contracts
//! speak through; the lemmas connect a scan's outcome, an update and an
//! append back to it.

use vstd::prelude::*;

verus! {

/// The first entry whose key is `key`, scanning from the front.
pub open spec fn assoc_lookup<T, K>(s: Seq<T>, key_of: spec_fn(T) -> K, key: K) -> Option<T>
    decreases s.len(),
{
    if s.len() == 0 {
        None
    } else if key_of(s[0]) == key {
        Some(s[0])
    } else {
        assoc_lookup(s.drop_first(), key_of, key)
    }
}

/// No two entries share a key.
pub open spec fn assoc_unique<T, K>(s: Seq<T>, key_of: spec_fn(T) -> K) -> bool {
    forall|i: int, j: int| 0 <= i < j < s.len() ==> key_of(#[trigger] s[i]) != key_of(
        #[trigger] s[j],
    )
}

/// A scan that hits slot `k` first determines the lookup.
pub proof fn lemma_assoc_lookup_found<T, K>(s: Seq<T>, key_of: spec_fn(T) -> K, k: int)
    requires
        0 <= k < s.len(),
        forall|j: int| 0 <= j < k ==> key_of(#[trigger] s[j]) != key_of(s[k]),
    ensures
        assoc_lookup(s, key_of, key_of(s[k])) == Some(s[k]),
    decreases k,
{
    if k > 0 {
        let t = s.drop_first();
        assert(t[k - 1] == s[k]);
        assert forall|j: int| 0 <= j < k - 1 implies key_of(#[trigger] t[j]) != key_of(
            t[k - 1],
        ) by {
            assert(t[j] == s[j + 1]);
        }
        lemma_assoc_lookup_found(t, key_of, k - 1);
    }
}

/// A scan that misses every slot determines the lookup.
pub proof fn lemma_assoc_lookup_miss<T, K>(s: Seq<T>, key_of: spec_fn(T) -> K, key: K)
    requires
        forall|j: int| 0 <= j < s.len() ==> key_of(#[trigger] s[j]) != key,
    ensures
        assoc_lookup(s, key_of, key) == None::<T>,
    decreases s.len(),
{
    if s.len() > 0 {
        let t = s.drop_first();
        assert forall|j: int| 0 <= j < t.len() implies key_of(#[trigger] t[j]) != key by {
            assert(t[j] == s[j + 1]);
        }
        lemma_assoc_lookup_miss(t, key_of, key);
    }
}

/// Appending an entry leaves every other key's lookup alone.
pub proof fn lemma_assoc_lookup_push_other<T, K>(
    s: Seq<T>,
    key_of: spec_fn(T) -> K,
    r: T,
    key: K,
)
    requires
        key != key_of(r),
    ensures
        assoc_lookup(s.push(r), key_of, key) == assoc_lookup(s, key_of, key),
    decreases s.len(),
{
    let u = s.push(r);
    if s.len() == 0 {
        assert(u[0] == r);
        assert(u.drop_first() =~= Seq::<T>::empty());
        assert(assoc_lookup(Seq::<T>::empty(), key_of, key) == None::<T>);
        assert(assoc_lookup(s, key_of, key) == None::<T>);
    } else {
        assert(u[0] == s[0]);
        if key_of(s[0]) != key {
            assert(u.drop_first() =~= s.drop_first().push(r));
            lemma_assoc_lookup_push_other(s.drop_first(), key_of, r, key);
        }
    }
}

/// Rewriting one slot in place leaves every other key's lookup alone,
/// as long as neither the old nor the new entry carries that key.
pub proof fn lemma_assoc_lookup_update_other<T, K>(
    s: Seq<T>,
    key_of: spec_fn(T) -> K,
    k: int,
    r: T,
    key: K,
)
    requires
        0 <= k < s.len(),
        key != key_of(r),
        key != key_of(s[k]),
    ensures
        assoc_lookup(s.update(k, r), key_of, key) == assoc_lookup(s, key_of, key),
    decreases s.len(),
{
    let u = s.update(k, r);
    if k == 0 {
        assert(u[0] == r);
        assert(u.drop_first() =~= s.drop_first());
    } else {
        assert(u[0] == s[0]);
        if key_of(s[0]) != key {
            assert(u.drop_first() =~= s.drop_first().update(k - 1, r));
            lemma_assoc_lookup_update_other(s.drop_first(), key_of, k - 1, r, key);
        }
    }
}

} // verus!
