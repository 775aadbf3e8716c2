//! The model of a bounded least-recently-used cache.
//!
//! A cache state is the sequence of its entries, most recently used first.
//! The transitions here say what a lookup and an insert do to that
//! sequence; the cache types of the library state their contracts over
//! them.

use vstd::prelude::*;

verus! {

/// The first index whose key is `k`, or the length when `k` is absent.
pub open spec fn find_key<K, V>(es: Seq<(K, V)>, k: K) -> int
    decreases es.len(),
{
    if es.len() == 0 {
        0
    } else if es[0].0 == k {
        0
    } else {
        1 + find_key(es.drop_first(), k)
    }
}

/// What [`find_key`] returns: the position of the first entry keyed `k`.
pub proof fn lemma_find_key<K, V>(es: Seq<(K, V)>, k: K)
    ensures
        0 <= find_key(es, k) <= es.len(),
        find_key(es, k) < es.len() ==> es[find_key(es, k)].0 == k,
        forall|j: int| 0 <= j < find_key(es, k) ==> (#[trigger] es[j]).0 != k,
    decreases es.len(),
{
    if es.len() > 0 && es[0].0 != k {
        lemma_find_key(es.drop_first(), k);
        assert forall|j: int| 0 <= j < find_key(es, k) implies (#[trigger] es[j]).0 != k by {
            if j > 0 {
                assert(es.drop_first()[j - 1].0 != k);
            }
        }
    }
}

/// No two entries share a key.
pub open spec fn unique_keys<K, V>(es: Seq<(K, V)>) -> bool {
    forall|i: int, j: int|
        0 <= i < j < es.len() ==> (#[trigger] es[i]).0 != (#[trigger] es[j]).0
}

/// A hit moves the entry to the front; a miss changes nothing.
pub open spec fn spec_cache_get<K, V>(es: Seq<(K, V)>, k: K) -> Seq<(K, V)> {
    let i = find_key(es, k);
    if i == es.len() {
        es
    } else {
        seq![es[i]] + es.subrange(0, i) + es.subrange(i + 1, es.len() as int)
    }
}

/// An insert puts the new entry in front; an entry with the same key is
/// replaced wherever it was, and when the cache is full the least recently
/// used entry — the last — leaves.
pub open spec fn spec_cache_put<K, V>(es: Seq<(K, V)>, cap: int, k: K, v: V) -> Seq<(K, V)> {
    let i = find_key(es, k);
    if i < es.len() {
        seq![(k, v)] + es.subrange(0, i) + es.subrange(i + 1, es.len() as int)
    } else if es.len() < cap {
        seq![(k, v)] + es
    } else {
        seq![(k, v)] + es.drop_last()
    }
}

/// An update in place: the value at the key changes, the order does not.
pub open spec fn spec_cache_update<K, V>(es: Seq<(K, V)>, i: int, v: V) -> Seq<(K, V)> {
    es.update(i, (es[i].0, v))
}

/// An insert keeps the entry count at the capacity or below.
pub proof fn lemma_put_len<K, V>(es: Seq<(K, V)>, cap: int, k: K, v: V)
    requires
        es.len() <= cap,
        cap >= 1,
    ensures
        1 <= spec_cache_put(es, cap, k, v).len() <= cap,
        spec_cache_put(es, cap, k, v).len() <= es.len() + 1,
{
    lemma_find_key(es, k);
}

/// An insert keeps keys unique.
pub proof fn lemma_put_unique<K, V>(es: Seq<(K, V)>, cap: int, k: K, v: V)
    requires
        unique_keys(es),
        es.len() <= cap,
        cap >= 1,
    ensures
        unique_keys(spec_cache_put(es, cap, k, v)),
{
    lemma_find_key(es, k);
    let r = spec_cache_put(es, cap, k, v);
    let i = find_key(es, k);
    assert forall|a: int, b: int| 0 <= a < b < r.len() implies (#[trigger] r[a]).0 != (
    #[trigger] r[b]).0 by {
        if i < es.len() {
            if a == 0 {
                if b <= i {
                    assert(r[b] == es[b - 1]);
                    assert(es[b - 1].0 != k);
                } else {
                    assert(r[b] == es[b]);
                    assert(es[b].0 != es[i].0);
                }
            } else {
                let ea = if a <= i { es[a - 1] } else { es[a] };
                let eb = if b <= i { es[b - 1] } else { es[b] };
                assert(r[a] == ea && r[b] == eb);
            }
        } else if es.len() < cap {
            if a == 0 {
                assert(r[b] == es[b - 1]);
                assert(es[b - 1].0 != k);
            } else {
                assert(r[a] == es[a - 1] && r[b] == es[b - 1]);
            }
        } else {
            if a == 0 {
                assert(r[b] == es[b - 1]);
                assert(es[b - 1].0 != k);
            } else {
                assert(r[a] == es[a - 1] && r[b] == es[b - 1]);
            }
        }
    }
}

/// A hit keeps keys unique.
pub proof fn lemma_get_unique<K, V>(es: Seq<(K, V)>, k: K)
    requires
        unique_keys(es),
    ensures
        unique_keys(spec_cache_get(es, k)),
        spec_cache_get(es, k).len() == es.len(),
{
    lemma_find_key(es, k);
    let r = spec_cache_get(es, k);
    let i = find_key(es, k);
    if i < es.len() {
        assert forall|a: int, b: int| 0 <= a < b < r.len() implies (#[trigger] r[a]).0 != (
        #[trigger] r[b]).0 by {
            let ea = if a == 0 {
                es[i]
            } else if a <= i {
                es[a - 1]
            } else {
                es[a]
            };
            let eb = if b == 0 {
                es[i]
            } else if b <= i {
                es[b - 1]
            } else {
                es[b]
            };
            assert(r[a] == ea && r[b] == eb);
        }
    }
}

/// Every entry after an insert is the inserted one or one of the old ones.
pub proof fn lemma_put_values<K, V>(es: Seq<(K, V)>, cap: int, k: K, v: V)
    requires
        es.len() <= cap,
        cap >= 1,
    ensures
        forall|j: int|
            0 <= j < spec_cache_put(es, cap, k, v).len() ==> #[trigger] spec_cache_put(
                es,
                cap,
                k,
                v,
            )[j] == (k, v) || es.contains(spec_cache_put(es, cap, k, v)[j]),
{
    lemma_find_key(es, k);
    let r = spec_cache_put(es, cap, k, v);
    let i = find_key(es, k);
    assert forall|j: int| 0 <= j < r.len() implies #[trigger] r[j] == (k, v) || es.contains(
        r[j],
    ) by {
        if j > 0 {
            if i < es.len() {
                if j <= i {
                    assert(r[j] == es[j - 1]);
                    assert(es.contains(es[j - 1]));
                } else {
                    assert(r[j] == es[j]);
                    assert(es.contains(es[j]));
                }
            } else {
                assert(r[j] == es[j - 1]);
                assert(es.contains(es[j - 1]));
            }
        }
    }
}

/// Every entry after a hit is one of the old ones.
pub proof fn lemma_get_values<K, V>(es: Seq<(K, V)>, k: K)
    ensures
        forall|j: int|
            0 <= j < spec_cache_get(es, k).len() ==> es.contains(
                #[trigger] spec_cache_get(es, k)[j],
            ),
{
    lemma_find_key(es, k);
    let r = spec_cache_get(es, k);
    let i = find_key(es, k);
    assert forall|j: int| 0 <= j < r.len() implies es.contains(#[trigger] r[j]) by {
        if i < es.len() {
            if j == 0 {
                assert(r[j] == es[i]);
                assert(es.contains(es[i]));
            } else if j <= i {
                assert(r[j] == es[j - 1]);
                assert(es.contains(es[j - 1]));
            } else {
                assert(r[j] == es[j]);
                assert(es.contains(es[j]));
            }
        } else {
            assert(es.contains(es[j]));
        }
    }
}

/// Just after an insert, a lookup of the same key hits the front and
/// returns exactly the inserted value.
pub proof fn lemma_insert_then_lookup<K, V>(es: Seq<(K, V)>, cap: int, k: K, v: V)
    ensures
        ({
            let r = spec_cache_put(es, cap, k, v);
            find_key(r, k) == 0 && r[0] == (k, v)
        }),
{
    lemma_find_key(es, k);
    let r = spec_cache_put(es, cap, k, v);
    assert(r[0] == (k, v));
}

/// Inserting a fresh key into a full cache keeps every entry but the least
/// recently used, whose key is gone.
pub proof fn lemma_insert_evicts_lru<K, V>(es: Seq<(K, V)>, cap: int, k: K, v: V)
    requires
        unique_keys(es),
        es.len() == cap,
        cap >= 1,
        find_key(es, k) == es.len(),
    ensures
        ({
            let r = spec_cache_put(es, cap, k, v);
            &&& r.len() == cap
            &&& r[0] == (k, v)
            &&& (forall|j: int| 1 <= j < cap ==> r[j] == es[j - 1])
            &&& (forall|j: int| 0 <= j < cap ==> (#[trigger] r[j]).0 != es.last().0)
        }),
{
    lemma_find_key(es, k);
    let r = spec_cache_put(es, cap, k, v);
    assert(r.len() == cap);
    assert forall|j: int| 0 <= j < cap implies (#[trigger] r[j]).0 != es.last().0 by {
        if j == 0 {
            assert(es[es.len() - 1].0 != k);
        } else {
            assert(r[j] == es[j - 1]);
            assert(es[j - 1].0 != es[es.len() - 1].0);
        }
    }
}

} // verus!
