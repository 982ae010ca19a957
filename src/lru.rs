//! The LRU cache of the `lru_cache` crate, as used for idle resident pages
//! (page id to slot index).
use vstd::prelude::*;
use lru_cache::LruCache;
use std::hash::{BuildHasher, Hash};

verus! {

#[verifier::external_type_specification]
#[verifier::external_body]
#[verifier::reject_recursive_types(K)]
#[verifier::reject_recursive_types(V)]
#[verifier::reject_recursive_types(S)]
pub struct ExLruCache<K: Eq + Hash, V, S: BuildHasher>(LruCache<K, V, S>);

/// The entries of the cache, least recently used first.
pub uninterp spec fn lru_entries(c: LruCache<u64, u64>) -> Seq<(u64, u64)>;

/// The capacity that the cache was made with.
pub uninterp spec fn lru_capacity(c: LruCache<u64, u64>) -> nat;

/// No key occurs twice.
pub open spec fn keys_unique(s: Seq<(u64, u64)>) -> bool {
    forall|i: int, j: int| 0 <= i < s.len() && 0 <= j < s.len() && i != j ==> s[i].0 != s[j].0
}

/// Some entry has key `k`.
pub open spec fn has_key(s: Seq<(u64, u64)>, k: u64) -> bool {
    exists|i: int| 0 <= i < s.len() && s[i].0 == k
}

/// The position of the entry with key `k` (meaningful when `has_key`).
pub open spec fn key_pos(s: Seq<(u64, u64)>, k: u64) -> int {
    choose|i: int| 0 <= i < s.len() && s[i].0 == k
}

/// `s` after the entry with key `k` is moved to the most recently used end.
pub open spec fn refreshed(s: Seq<(u64, u64)>, k: u64) -> Seq<(u64, u64)> {
    s.remove(key_pos(s, k)).push(s[key_pos(s, k)])
}

/// `s` after inserting `(k, v)` and trimming to `cap` entries from the least
/// recently used end.
pub open spec fn inserted(s: Seq<(u64, u64)>, k: u64, v: u64, cap: nat) -> Seq<(u64, u64)> {
    let s1 = if has_key(s, k) { s.remove(key_pos(s, k)).push((k, v)) } else { s.push((k, v)) };
    if s1.len() > cap { s1.drop_first() } else { s1 }
}

/// Relies on `LruCache::new`: an empty cache bounded by `capacity`.
#[verifier::external_body]
pub fn lru_new(capacity: usize) -> (c: LruCache<u64, u64>)
    ensures
        lru_entries(c) == Seq::<(u64, u64)>::empty(),
        lru_capacity(c) == capacity,
{
    LruCache::new(capacity)
}

/// Relies on `LruCache::contains_key`, which looks the key up with
/// `get_refresh`: a hit moves the entry to the most recently used end.
#[verifier::external_body]
pub fn lru_contains(c: &mut LruCache<u64, u64>, k: u64) -> (r: bool)
    requires
        keys_unique(lru_entries(*old(c))),
    ensures
        r == has_key(lru_entries(*old(c)), k),
        r ==> lru_entries(*final(c)) == refreshed(lru_entries(*old(c)), k),
        !r ==> lru_entries(*final(c)) == lru_entries(*old(c)),
        lru_capacity(*final(c)) == lru_capacity(*old(c)),
{
    c.contains_key(&k)
}

/// Relies on `LruCache::insert`: the entry is placed (or moved) at the most
/// recently used end, then the least recently used entry is dropped if the
/// cache is over capacity; the old value of the key is returned.
#[verifier::external_body]
pub fn lru_insert(c: &mut LruCache<u64, u64>, k: u64, v: u64) -> (r: Option<u64>)
    requires
        keys_unique(lru_entries(*old(c))),
    ensures
        lru_entries(*final(c)) == inserted(lru_entries(*old(c)), k, v, lru_capacity(*old(c))),
        r == (if has_key(lru_entries(*old(c)), k) {
            Some(lru_entries(*old(c))[key_pos(lru_entries(*old(c)), k)].1)
        } else {
            None
        }),
        lru_capacity(*final(c)) == lru_capacity(*old(c)),
{
    c.insert(k, v)
}

/// Relies on `LruCache::remove`: the entry with key `k` is taken out and its
/// value returned.
#[verifier::external_body]
pub fn lru_remove(c: &mut LruCache<u64, u64>, k: u64) -> (r: Option<u64>)
    requires
        keys_unique(lru_entries(*old(c))),
    ensures
        has_key(lru_entries(*old(c)), k) ==> r == Some(lru_entries(*old(c))[key_pos(lru_entries(*old(c)), k)].1)
            && lru_entries(*final(c)) == lru_entries(*old(c)).remove(key_pos(lru_entries(*old(c)), k)),
        !has_key(lru_entries(*old(c)), k) ==> r is None && lru_entries(*final(c)) == lru_entries(*old(c)),
        lru_capacity(*final(c)) == lru_capacity(*old(c)),
{
    c.remove(&k)
}

/// Relies on `LruCache::remove_lru`: the least recently used entry is taken out.
#[verifier::external_body]
pub fn lru_pop_oldest(c: &mut LruCache<u64, u64>) -> (r: Option<(u64, u64)>)
    ensures
        lru_entries(*old(c)).len() == 0 ==> r is None && lru_entries(*final(c)) == lru_entries(*old(c)),
        lru_entries(*old(c)).len() > 0 ==> r == Some(lru_entries(*old(c))[0])
            && lru_entries(*final(c)) == lru_entries(*old(c)).drop_first(),
        lru_capacity(*final(c)) == lru_capacity(*old(c)),
{
    c.remove_lru()
}

/// Relies on `LruCache::len`: the number of entries.
#[verifier::external_body]
pub fn lru_len(c: &LruCache<u64, u64>) -> (r: usize)
    ensures
        r == lru_entries(*c).len(),
{
    c.len()
}

} // verus!

verus! {

/// Taking out one entry keeps keys unique and leaves every other key.
pub proof fn lemma_remove_entry(s: Seq<(u64, u64)>, i: int)
    requires
        keys_unique(s),
        0 <= i < s.len(),
    ensures
        keys_unique(s.remove(i)),
        forall|k: u64| #[trigger] has_key(s.remove(i), k) <==> (has_key(s, k) && k != s[i].0),
        forall|j: int| 0 <= j < s.remove(i).len() ==> #[trigger] s.remove(i)[j] == (if j < i { s[j] } else { s[j + 1] }),
{
    let r = s.remove(i);
    assert forall|k: u64| #[trigger] has_key(r, k) <==> (has_key(s, k) && k != s[i].0) by {
        if has_key(r, k) {
            let j = choose|j: int| 0 <= j < r.len() && r[j].0 == k;
            if j < i {
                assert(s[j].0 == k);
            } else {
                assert(s[j + 1].0 == k);
            }
        }
        if has_key(s, k) && k != s[i].0 {
            let j = choose|j: int| 0 <= j < s.len() && s[j].0 == k;
            if j < i {
                assert(r[j].0 == k);
            } else {
                assert(r[j - 1].0 == k);
            }
        }
    }
}

/// The oldest entry is the one at position zero.
pub proof fn lemma_drop_first_is_remove(s: Seq<(u64, u64)>)
    requires
        s.len() > 0,
    ensures
        s.drop_first() == s.remove(0),
{
    assert(s.drop_first() =~= s.remove(0));
}

/// Appending a new key keeps keys unique.
pub proof fn lemma_push_entry(s: Seq<(u64, u64)>, k: u64, v: u64)
    requires
        keys_unique(s),
        !has_key(s, k),
    ensures
        keys_unique(s.push((k, v))),
        forall|o: u64| #[trigger] has_key(s.push((k, v)), o) <==> (has_key(s, o) || o == k),
{
    let p = s.push((k, v));
    assert forall|o: u64| #[trigger] has_key(p, o) <==> (has_key(s, o) || o == k) by {
        if has_key(p, o) {
            let j = choose|j: int| 0 <= j < p.len() && p[j].0 == o;
            if j < s.len() {
                assert(s[j].0 == o);
            }
        }
        if has_key(s, o) {
            let j = choose|j: int| 0 <= j < s.len() && s[j].0 == o;
            assert(p[j].0 == o);
        }
        if o == k {
            assert(p[s.len() as int].0 == o);
        }
    }
    assert forall|i: int, j: int| 0 <= i < p.len() && 0 <= j < p.len() && i != j implies p[i].0 != p[j].0 by {
        if i == s.len() {
            assert(s[j].0 == p[j].0);
        } else if j == s.len() {
            assert(s[i].0 == p[i].0);
        }
    }
}

} // verus!

verus! {

/// A key just appended sits at the end; taking it out again restores `s`.
pub proof fn lemma_key_pos_push(s: Seq<(u64, u64)>, k: u64, v: u64)
    requires
        keys_unique(s),
        !has_key(s, k),
    ensures
        key_pos(s.push((k, v)), k) == s.len(),
        s.push((k, v)).remove(s.len() as int) == s,
{
    let p = s.push((k, v));
    lemma_push_entry(s, k, v);
    assert(p[s.len() as int].0 == k);
    let i = key_pos(p, k);
    if i != s.len() {
        assert(p[i].0 == k && p[s.len() as int].0 == k);
    }
    assert(p.remove(s.len() as int) =~= s);
}

} // verus!
