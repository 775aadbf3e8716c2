//! A bounded cache of name resolutions.
//!
//! The cache maps a host name to the non-empty, ordered list of addresses
//! it resolved to, holds at most its capacity of entries, and evicts the
//! least recently used one. The store is the `lru` crate's cache; what its
//! operations do to the entry sequence is stated against
//! [`crate::cache_model`] and believed, the bookkeeping above it is
//! proved. Resolution itself is the host's: it feeds results in through
//! [`DnsCache::insert`].

use std::collections::hash_map::RandomState;

use vstd::prelude::*;

use crate::cache_model::find_key;
use crate::cache_model::lemma_find_key;
use crate::cache_model::lemma_get_unique;
use crate::cache_model::lemma_put_len;
use crate::cache_model::lemma_put_unique;
use crate::cache_model::lemma_put_values;
use crate::cache_model::lemma_get_values;
use crate::cache_model::spec_cache_get;
use crate::cache_model::spec_cache_put;
use crate::cache_model::unique_keys;
use crate::ip::IpAddr;

verus! {

/// The entries of this cache, most recently used first: host name
/// characters and resolved addresses.
pub uninterp spec fn dns_lru_entries(c: lru::LruCache<String, Vec<IpAddr>, RandomState>) -> Seq<
    (Seq<char>, Seq<IpAddr>),
>;

/// The capacity this cache was created with.
pub uninterp spec fn dns_lru_cap(c: lru::LruCache<String, Vec<IpAddr>, RandomState>) -> int;

#[verifier::external_type_specification]
#[verifier::external_body]
#[verifier::reject_recursive_types(K)]
#[verifier::reject_recursive_types(V)]
#[verifier::reject_recursive_types(S)]
pub struct ExLruCache<K, V, S>(lru::LruCache<K, V, S>);

/// Relies on `lru::LruCache::new`: a fresh cache of the given capacity is
/// empty.
#[verifier::external_body]
fn dns_lru_new(cap: usize) -> (c: lru::LruCache<String, Vec<IpAddr>, RandomState>)
    requires
        cap >= 1,
    ensures
        dns_lru_entries(c) == Seq::<(Seq<char>, Seq<IpAddr>)>::empty(),
        dns_lru_cap(c) == cap,
{
    lru::LruCache::with_hasher(std::num::NonZeroUsize::new(cap).unwrap(), RandomState::new())
}

/// Relies on `lru::LruCache::get`: a hit returns the value and moves the
/// entry to the front; a miss changes nothing.
#[verifier::external_body]
fn dns_lru_get(c: &mut lru::LruCache<String, Vec<IpAddr>, RandomState>, host: &str) -> (r: Option<Vec<IpAddr>>)
    ensures
        dns_lru_entries(*final(c)) == spec_cache_get(dns_lru_entries(*old(c)), host@),
        find_key(dns_lru_entries(*old(c)), host@) < dns_lru_entries(*old(c)).len() ==> (r matches
        Some(v) && v@ == dns_lru_entries(*old(c))[find_key(dns_lru_entries(*old(c)), host@)].1),
        find_key(dns_lru_entries(*old(c)), host@) == dns_lru_entries(*old(c)).len() ==> r is None,
        dns_lru_cap(*final(c)) == dns_lru_cap(*old(c)),
{
    c.get(host).cloned()
}

/// Relies on `lru::LruCache::put`: the entry goes to the front, replacing
/// one under the same key; at capacity the least recently used entry is
/// evicted.
#[verifier::external_body]
fn dns_lru_put(c: &mut lru::LruCache<String, Vec<IpAddr>, RandomState>, host: String, ips: Vec<IpAddr>)
    ensures
        dns_lru_entries(*final(c)) == spec_cache_put(
            dns_lru_entries(*old(c)),
            dns_lru_cap(*old(c)),
            host@,
            ips@,
        ),
        dns_lru_cap(*final(c)) == dns_lru_cap(*old(c)),
{
    c.put(host, ips);
}

/// Relies on `lru::LruCache::len`: the number of entries.
#[verifier::external_body]
fn dns_lru_len(c: &lru::LruCache<String, Vec<IpAddr>, RandomState>) -> (n: usize)
    ensures
        n == dns_lru_entries(*c).len(),
{
    c.len()
}

/// Relies on `lru::LruCache::clear`: all entries leave.
#[verifier::external_body]
fn dns_lru_clear(c: &mut lru::LruCache<String, Vec<IpAddr>, RandomState>)
    ensures
        dns_lru_entries(*final(c)) == Seq::<(Seq<char>, Seq<IpAddr>)>::empty(),
        dns_lru_cap(*final(c)) == dns_lru_cap(*old(c)),
{
    c.clear();
}

/// A bounded map from host names to the addresses they resolved to, with
/// least-recently-used eviction.
pub struct DnsCache {
    inner: lru::LruCache<String, Vec<IpAddr>, RandomState>,
}

impl DnsCache {
    /// The entries, most recently used first.
    pub closed spec fn entries(self) -> Seq<(Seq<char>, Seq<IpAddr>)> {
        dns_lru_entries(self.inner)
    }

    /// The bound on the entry count.
    pub closed spec fn cap(self) -> int {
        dns_lru_cap(self.inner)
    }

    /// A well-formed cache: within capacity, one entry per host, and no
    /// entry with an empty address list (an empty resolution is a failure
    /// and is never cached).
    pub open spec fn wf(self) -> bool {
        &&& self.cap() >= 1
        &&& self.entries().len() <= self.cap()
        &&& unique_keys(self.entries())
        &&& (forall|j: int|
            0 <= j < self.entries().len() ==> (#[trigger] self.entries()[j]).1.len() > 0)
    }

    /// An empty cache of the given capacity.
    pub fn new(capacity: usize) -> (c: DnsCache)
        requires
            capacity >= 1,
        ensures
            c.wf(),
            c.entries() == Seq::<(Seq<char>, Seq<IpAddr>)>::empty(),
            c.cap() == capacity,
    {
        DnsCache { inner: dns_lru_new(capacity) }
    }

    /// The addresses cached for `host`, if any; a hit marks the entry as
    /// most recently used. A returned list is never empty.
    pub fn lookup(&mut self, host: &str) -> (r: Option<Vec<IpAddr>>)
        requires
            old(self).wf(),
        ensures
            final(self).wf(),
            final(self).cap() == old(self).cap(),
            final(self).entries() == spec_cache_get(old(self).entries(), host@),
            ({
                let es = old(self).entries();
                let i = find_key(es, host@);
                &&& (i < es.len() ==> (r matches Some(v) && v@ == es[i].1 && v@.len() > 0))
                &&& (i == es.len() ==> r is None)
            }),
    {
        let r = dns_lru_get(&mut self.inner, host);
        proof {
            let es = old(self).entries();
            lemma_find_key(es, host@);
            lemma_get_unique(es, host@);
            lemma_get_values(es, host@);
        }
        r
    }

    /// Caches a successful resolution. The entry becomes the most recently
    /// used; at capacity the least recently used entry leaves.
    pub fn insert(&mut self, host: String, ips: Vec<IpAddr>)
        requires
            old(self).wf(),
            ips@.len() > 0,
        ensures
            final(self).wf(),
            final(self).cap() == old(self).cap(),
            final(self).entries() == spec_cache_put(
                old(self).entries(),
                old(self).cap(),
                host@,
                ips@,
            ),
    {
        let ghost es = old(self).entries();
        let ghost cap = old(self).cap();
        dns_lru_put(&mut self.inner, host, ips);
        proof {
            lemma_put_len(es, cap, host@, ips@);
            lemma_put_unique(es, cap, host@, ips@);
            lemma_put_values(es, cap, host@, ips@);
        }
    }

    /// The number of cached hosts.
    pub fn len(&self) -> (n: usize)
        ensures
            n == self.entries().len(),
    {
        dns_lru_len(&self.inner)
    }

    /// Drops every entry.
    pub fn clear(&mut self)
        requires
            old(self).wf(),
        ensures
            final(self).wf(),
            final(self).cap() == old(self).cap(),
            final(self).entries() == Seq::<(Seq<char>, Seq<IpAddr>)>::empty(),
    {
        dns_lru_clear(&mut self.inner);
    }
}

/// The distinct addresses of `s`, first occurrences, in order.
pub open spec fn spec_dedup(s: Seq<IpAddr>) -> Seq<IpAddr>
    decreases s.len(),
{
    if s.len() == 0 {
        Seq::empty()
    } else {
        let rest = spec_dedup(s.drop_last());
        if s.drop_last().contains(s.last()) {
            rest
        } else {
            rest.push(s.last())
        }
    }
}

/// Keeps the first occurrence of each address, in order of first
/// appearance.
pub fn dedup_ips(ips: &Vec<IpAddr>) -> (out: Vec<IpAddr>)
    ensures
        out@ == spec_dedup(ips@),
        out@.len() > 0 <==> ips@.len() > 0,
{
    let mut out: Vec<IpAddr> = Vec::new();
    let n = ips.len();
    let mut i: usize = 0;
    proof {
        assert(ips@.subrange(0, 0) =~= Seq::<IpAddr>::empty());
    }
    while i < n
        invariant
            i <= n,
            n == ips@.len(),
            out@ == spec_dedup(ips@.subrange(0, i as int)),
            forall|x: IpAddr| out@.contains(x) <==> ips@.subrange(0, i as int).contains(x),
        decreases n - i,
    {
        let ghost pre = ips@.subrange(0, i as int);
        let ghost ob = out@;
        let x = ips[i];
        let mut seen = false;
        let m = out.len();
        let mut j: usize = 0;
        while j < m
            invariant
                j <= m,
                m == out@.len(),
                ob == out@,
                x == ips@[i as int],
                seen == exists|t: int| 0 <= t < j && out@[t] == x,
            decreases m - j,
        {
            if out[j] == x {
                seen = true;
            }
            j = j + 1;
        }
        proof {
            assert(seen == ob.contains(x));
            assert(ips@.subrange(0, i as int + 1).drop_last() =~= pre);
            assert(ips@.subrange(0, i as int + 1).last() == x);
            vstd::seq_lib::lemma_seq_contains_after_push(pre, x, x);
        }
        if !seen {
            out.push(x);
        }
        proof {
            let cur = ips@.subrange(0, i as int + 1);
            assert(cur =~= pre.push(x));
            assert forall|y: IpAddr| out@.contains(y) <==> cur.contains(y) by {
                vstd::seq_lib::lemma_seq_contains_after_push(pre, x, y);
                if seen {
                    assert(out@ == ob);
                    if y == x {
                        assert(pre.contains(y));
                    }
                } else {
                    assert(out@ == ob.push(x));
                    vstd::seq_lib::lemma_seq_contains_after_push(ob, x, y);
                }
            }
        }
        i = i + 1;
    }
    proof {
        assert(ips@.subrange(0, n as int) =~= ips@);
        if ips@.len() > 0 {
            lemma_dedup_nonempty(ips@);
        }
    }
    out
}

/// Deduplication of a non-empty list is non-empty.
proof fn lemma_dedup_nonempty(s: Seq<IpAddr>)
    requires
        s.len() > 0,
    ensures
        spec_dedup(s).len() > 0,
    decreases s.len(),
{
    if s.drop_last().contains(s.last()) {
        lemma_dedup_nonempty(s.drop_last());
    }
}

} // verus!
