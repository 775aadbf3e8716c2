//! Per-source-IP traffic accounting.
//!
//! The tracker keeps, for at most a configured number of addresses, how
//! many connections each one opened and how many bytes it moved in each
//! direction. The store is the `lru` crate's cache: a new connection marks
//! its address as most recently used, byte totals are committed in place
//! without touching the order, and when the table is full the least
//! recently used address is evicted. Counters saturate instead of wrapping.

use std::collections::hash_map::RandomState;

use vstd::prelude::*;
use vstd::string::StringSliceAdditionalSpecFns;

use crate::cache_model::find_key;
use crate::cache_model::lemma_find_key;
use crate::cache_model::lemma_get_unique;
use crate::cache_model::lemma_get_values;
use crate::cache_model::lemma_put_len;
use crate::cache_model::lemma_put_unique;
use crate::cache_model::spec_cache_get;
use crate::cache_model::spec_cache_put;
use crate::cache_model::spec_cache_update;
use crate::cache_model::unique_keys;
use crate::ip::IpAddr;

verus! {

/// Addition that stops at the largest value instead of wrapping.
pub open spec fn sat_add(a: u64, b: u64) -> u64 {
    if a + b > u64::MAX {
        u64::MAX
    } else {
        (a + b) as u64
    }
}

/// Saturating addition on `u64`.
pub fn sat_add_exec(a: u64, b: u64) -> (r: u64)
    ensures
        r == sat_add(a, b),
{
    if a > u64::MAX - b {
        u64::MAX
    } else {
        a + b
    }
}

/// The byte and connection counters of one address.
#[derive(Debug, Clone, Copy, PartialEq, Eq, Structural)]
pub struct IpTrafficStats {
    pub bytes_received: u64,
    pub bytes_sent: u64,
    pub connections: u64,
}

impl IpTrafficStats {
    /// Fresh counters, all zero.
    pub fn new() -> (s: IpTrafficStats)
        ensures
            s == IpTrafficStats::spec_zero(),
    {
        IpTrafficStats { bytes_received: 0, bytes_sent: 0, connections: 0 }
    }

    /// The all-zero counters.
    pub open spec fn spec_zero() -> IpTrafficStats {
        IpTrafficStats { bytes_received: 0, bytes_sent: 0, connections: 0 }
    }

    /// The counters after one more connection.
    pub open spec fn spec_inc_connections(self) -> IpTrafficStats {
        IpTrafficStats { connections: sat_add(self.connections, 1), ..self }
    }

    /// The counters after `bytes` more received.
    pub open spec fn spec_add_received(self, bytes: u64) -> IpTrafficStats {
        IpTrafficStats { bytes_received: sat_add(self.bytes_received, bytes), ..self }
    }

    /// The counters after `bytes` more sent.
    pub open spec fn spec_add_sent(self, bytes: u64) -> IpTrafficStats {
        IpTrafficStats { bytes_sent: sat_add(self.bytes_sent, bytes), ..self }
    }

    pub fn add_received(&mut self, bytes: u64)
        ensures
            *final(self) == old(self).spec_add_received(bytes),
    {
        self.bytes_received = sat_add_exec(self.bytes_received, bytes);
    }

    pub fn add_sent(&mut self, bytes: u64)
        ensures
            *final(self) == old(self).spec_add_sent(bytes),
    {
        self.bytes_sent = sat_add_exec(self.bytes_sent, bytes);
    }

    pub fn inc_connections(&mut self)
        ensures
            *final(self) == old(self).spec_inc_connections(),
    {
        self.connections = sat_add_exec(self.connections, 1);
    }

    pub fn get_received(&self) -> (n: u64)
        ensures
            n == self.bytes_received,
    {
        self.bytes_received
    }

    pub fn get_sent(&self) -> (n: u64)
        ensures
            n == self.bytes_sent,
    {
        self.bytes_sent
    }

    /// Received and sent together, stopping at the largest value.
    pub fn get_total(&self) -> (n: u64)
        ensures
            n == sat_add(self.bytes_received, self.bytes_sent),
    {
        sat_add_exec(self.bytes_received, self.bytes_sent)
    }

    pub fn get_connections(&self) -> (n: u64)
        ensures
            n == self.connections,
    {
        self.connections
    }
}

/// The entries of this tracker's table, most recently used first.
pub uninterp spec fn traffic_lru_entries(
    c: lru::LruCache<IpAddr, IpTrafficStats, RandomState>,
) -> Seq<(IpAddr, IpTrafficStats)>;

/// The capacity this tracker's table was created with.
pub uninterp spec fn traffic_lru_cap(c: lru::LruCache<IpAddr, IpTrafficStats, RandomState>) -> int;

/// Relies on `lru::LruCache::with_hasher`: a fresh cache of the given
/// capacity is empty.
#[verifier::external_body]
fn traffic_lru_new(cap: usize) -> (c: lru::LruCache<IpAddr, IpTrafficStats, RandomState>)
    requires
        cap >= 1,
    ensures
        traffic_lru_entries(c) == Seq::<(IpAddr, IpTrafficStats)>::empty(),
        traffic_lru_cap(c) == cap,
{
    lru::LruCache::with_hasher(std::num::NonZeroUsize::new(cap).unwrap(), RandomState::new())
}

/// Relies on `lru::LruCache::get`: a hit returns the value and moves the
/// entry to the front; a miss changes nothing.
#[verifier::external_body]
fn traffic_lru_get(
    c: &mut lru::LruCache<IpAddr, IpTrafficStats, RandomState>,
    ip: &IpAddr,
) -> (r: Option<IpTrafficStats>)
    ensures
        traffic_lru_entries(*final(c)) == spec_cache_get(traffic_lru_entries(*old(c)), *ip),
        find_key(traffic_lru_entries(*old(c)), *ip) < traffic_lru_entries(*old(c)).len()
            ==> r == Some(
            traffic_lru_entries(*old(c))[find_key(traffic_lru_entries(*old(c)), *ip)].1,
        ),
        find_key(traffic_lru_entries(*old(c)), *ip) == traffic_lru_entries(*old(c)).len()
            ==> r is None,
        traffic_lru_cap(*final(c)) == traffic_lru_cap(*old(c)),
{
    c.get(ip).copied()
}

/// Relies on `lru::LruCache::put`: the entry goes to the front, replacing
/// one under the same key; at capacity the least recently used entry is
/// evicted.
#[verifier::external_body]
fn traffic_lru_put(
    c: &mut lru::LruCache<IpAddr, IpTrafficStats, RandomState>,
    ip: IpAddr,
    stats: IpTrafficStats,
)
    ensures
        traffic_lru_entries(*final(c)) == spec_cache_put(
            traffic_lru_entries(*old(c)),
            traffic_lru_cap(*old(c)),
            ip,
            stats,
        ),
        traffic_lru_cap(*final(c)) == traffic_lru_cap(*old(c)),
{
    c.put(ip, stats);
}

/// Relies on `lru::LruCache::peek`: the value if present, with the order
/// left alone.
#[verifier::external_body]
fn traffic_lru_peek(
    c: &lru::LruCache<IpAddr, IpTrafficStats, RandomState>,
    ip: &IpAddr,
) -> (r: Option<IpTrafficStats>)
    ensures
        find_key(traffic_lru_entries(*c), *ip) < traffic_lru_entries(*c).len() ==> r == Some(
            traffic_lru_entries(*c)[find_key(traffic_lru_entries(*c), *ip)].1,
        ),
        find_key(traffic_lru_entries(*c), *ip) == traffic_lru_entries(*c).len() ==> r is None,
{
    c.peek(ip).copied()
}

/// Relies on `lru::LruCache::peek_mut`: mutable access to the value if
/// present; the order is left alone and only that value changes.
#[verifier::external_body]
fn traffic_lru_peek_mut<'a>(
    c: &'a mut lru::LruCache<IpAddr, IpTrafficStats, RandomState>,
    ip: &IpAddr,
) -> (r: Option<&'a mut IpTrafficStats>)
    ensures
        find_key(traffic_lru_entries(*old(c)), *ip) < traffic_lru_entries(*old(c)).len() ==> (
        r.is_some() && *r.unwrap() == traffic_lru_entries(*old(c))[find_key(
            traffic_lru_entries(*old(c)),
            *ip,
        )].1 && traffic_lru_entries(*final(c)) == spec_cache_update(
            traffic_lru_entries(*old(c)),
            find_key(traffic_lru_entries(*old(c)), *ip),
            *final(r.unwrap()),
        )),
        find_key(traffic_lru_entries(*old(c)), *ip) == traffic_lru_entries(*old(c)).len() ==> (
        r.is_none() && traffic_lru_entries(*final(c)) == traffic_lru_entries(*old(c))),
        traffic_lru_cap(*final(c)) == traffic_lru_cap(*old(c)),
{
    c.peek_mut(ip)
}

/// Relies on `lru::LruCache::len`: the number of entries.
#[verifier::external_body]
fn traffic_lru_len(c: &lru::LruCache<IpAddr, IpTrafficStats, RandomState>) -> (n: usize)
    ensures
        n == traffic_lru_entries(*c).len(),
{
    c.len()
}

/// Relies on `lru::LruCache::clear`: all entries leave.
#[verifier::external_body]
fn traffic_lru_clear(c: &mut lru::LruCache<IpAddr, IpTrafficStats, RandomState>)
    ensures
        traffic_lru_entries(*final(c)) == Seq::<(IpAddr, IpTrafficStats)>::empty(),
        traffic_lru_cap(*final(c)) == traffic_lru_cap(*old(c)),
{
    c.clear();
}

/// Relies on `lru::LruCache::iter`: the entries in most-recently-used
/// order.
#[verifier::external_body]
fn traffic_lru_entries_vec(
    c: &lru::LruCache<IpAddr, IpTrafficStats, RandomState>,
) -> (r: Vec<(IpAddr, IpTrafficStats)>)
    ensures
        r@ == traffic_lru_entries(*c),
{
    c.iter().map(|(k, v)| (*k, *v)).collect()
}

/// One address's counters, copied out for reporting.
#[derive(Debug, Clone, Copy, PartialEq, Eq, Structural)]
pub struct IpTrafficSnapshot {
    pub ip: IpAddr,
    pub bytes_received: u64,
    pub bytes_sent: u64,
    pub total_bytes: u64,
    pub connections: u64,
}

/// The snapshot of one table entry.
pub open spec fn spec_snapshot(e: (IpAddr, IpTrafficStats)) -> IpTrafficSnapshot {
    IpTrafficSnapshot {
        ip: e.0,
        bytes_received: e.1.bytes_received,
        bytes_sent: e.1.bytes_sent,
        total_bytes: sat_add(e.1.bytes_received, e.1.bytes_sent),
        connections: e.1.connections,
    }
}

/// What one accounting step does to the entry table.
pub enum TrafficOp {
    /// A connection from the address was admitted.
    Conn,
    /// The address uploaded this many bytes.
    Received(u64),
    /// The address downloaded this many bytes.
    Sent(u64),
}

/// The table after one step for address `x`: a connection inserts or
/// promotes the entry and bumps its count; byte commits add in place and
/// only if the address is still tracked.
pub open spec fn apply_traffic_op(
    es: Seq<(IpAddr, IpTrafficStats)>,
    cap: int,
    x: IpAddr,
    op: TrafficOp,
) -> Seq<(IpAddr, IpTrafficStats)> {
    let i = find_key(es, x);
    match op {
        TrafficOp::Conn => {
            if i < es.len() {
                spec_cache_put(spec_cache_get(es, x), cap, x, es[i].1.spec_inc_connections())
            } else {
                spec_cache_put(es, cap, x, IpTrafficStats::spec_zero().spec_inc_connections())
            }
        },
        TrafficOp::Received(b) => {
            if b != 0 && i < es.len() {
                spec_cache_update(es, i, es[i].1.spec_add_received(b))
            } else {
                es
            }
        },
        TrafficOp::Sent(b) => {
            if b != 0 && i < es.len() {
                spec_cache_update(es, i, es[i].1.spec_add_sent(b))
            } else {
                es
            }
        },
    }
}

/// Tracks traffic per source address in a bounded, least-recently-used
/// table. A disabled tracker records nothing. The statistics and
/// persistence files configured beside it are written by the host; the
/// tracker only keeps their paths.
pub struct IpTrafficTracker {
    inner: lru::LruCache<IpAddr, IpTrafficStats, RandomState>,
    enabled: bool,
    output_file: Option<String>,
    persistence_file: Option<String>,
}

impl IpTrafficTracker {
    /// The entries, most recently used first.
    pub closed spec fn entries(self) -> Seq<(IpAddr, IpTrafficStats)> {
        traffic_lru_entries(self.inner)
    }

    /// The bound on the number of tracked addresses.
    pub closed spec fn cap(self) -> int {
        traffic_lru_cap(self.inner)
    }

    /// Whether the tracker records anything.
    pub closed spec fn spec_enabled(self) -> bool {
        self.enabled
    }

    /// A well-formed tracker: within capacity, one entry per address.
    pub open spec fn wf(self) -> bool {
        &&& self.cap() >= 1
        &&& self.entries().len() <= self.cap()
        &&& unique_keys(self.entries())
    }

    /// An enabled tracker for at most `max_tracked_ips` addresses. The two
    /// paths are kept for the host, which writes the files.
    pub fn new(
        max_tracked_ips: usize,
        output_file: Option<String>,
        persistence_file: Option<String>,
    ) -> (t: IpTrafficTracker)
        requires
            max_tracked_ips >= 1,
        ensures
            t.wf(),
            t.spec_enabled(),
            t.entries() == Seq::<(IpAddr, IpTrafficStats)>::empty(),
            t.cap() == max_tracked_ips,
    {
        IpTrafficTracker {
            inner: traffic_lru_new(max_tracked_ips),
            enabled: true,
            output_file,
            persistence_file,
        }
    }

    /// A tracker that records nothing.
    pub fn disabled() -> (t: IpTrafficTracker)
        ensures
            t.wf(),
            !t.spec_enabled(),
            t.entries() == Seq::<(IpAddr, IpTrafficStats)>::empty(),
    {
        IpTrafficTracker {
            inner: traffic_lru_new(1),
            enabled: false,
            output_file: None,
            persistence_file: None,
        }
    }

    /// Whether the tracker records anything.
    pub fn is_enabled(&self) -> (b: bool)
        ensures
            b == self.spec_enabled(),
    {
        self.enabled
    }

    /// Counts one admitted connection from `ip`: its entry becomes the
    /// most recently used and its connection count rises by one.
    pub fn record_connection(&mut self, ip: IpAddr)
        requires
            old(self).wf(),
        ensures
            final(self).wf(),
            final(self).cap() == old(self).cap(),
            final(self).spec_enabled() == old(self).spec_enabled(),
            !old(self).spec_enabled() ==> final(self).entries() == old(self).entries(),
            old(self).spec_enabled() ==> final(self).entries() == apply_traffic_op(
                old(self).entries(),
                old(self).cap(),
                ip,
                TrafficOp::Conn,
            ),
    {
        if !self.enabled {
            return ;
        }
        let ghost es = old(self).entries();
        let ghost cap = old(self).cap();
        let stats = match traffic_lru_get(&mut self.inner, &ip) {
            Some(mut s) => {
                s.inc_connections();
                s
            },
            None => {
                let mut s = IpTrafficStats::new();
                s.inc_connections();
                s
            },
        };
        proof {
            lemma_find_key(es, ip);
            lemma_get_unique(es, ip);
            lemma_get_values(es, ip);
        }
        let ghost mid = traffic_lru_entries(self.inner);
        traffic_lru_put(&mut self.inner, ip, stats);
        proof {
            lemma_put_len(mid, cap, ip, stats);
            lemma_put_unique(mid, cap, ip, stats);
        }
    }

    /// Adds uploaded bytes to `ip`'s entry, if it is tracked, without
    /// touching the order.
    pub fn record_received(&mut self, ip: IpAddr, bytes: u64)
        requires
            old(self).wf(),
        ensures
            final(self).wf(),
            final(self).cap() == old(self).cap(),
            final(self).spec_enabled() == old(self).spec_enabled(),
            !old(self).spec_enabled() ==> final(self).entries() == old(self).entries(),
            old(self).spec_enabled() ==> final(self).entries() == apply_traffic_op(
                old(self).entries(),
                old(self).cap(),
                ip,
                TrafficOp::Received(bytes),
            ),
    {
        if !self.enabled || bytes == 0 {
            return ;
        }
        let ghost es = old(self).entries();
        proof {
            lemma_find_key(es, ip);
        }
        match traffic_lru_peek_mut(&mut self.inner, &ip) {
            Some(stats) => {
                stats.add_received(bytes);
            },
            None => {},
        }
        proof {
            let i = find_key(es, ip);
            if i < es.len() {
                lemma_update_keeps_wf(es, i, es[i].1.spec_add_received(bytes));
            }
        }
    }

    /// Adds downloaded bytes to `ip`'s entry, if it is tracked, without
    /// touching the order.
    pub fn record_sent(&mut self, ip: IpAddr, bytes: u64)
        requires
            old(self).wf(),
        ensures
            final(self).wf(),
            final(self).cap() == old(self).cap(),
            final(self).spec_enabled() == old(self).spec_enabled(),
            !old(self).spec_enabled() ==> final(self).entries() == old(self).entries(),
            old(self).spec_enabled() ==> final(self).entries() == apply_traffic_op(
                old(self).entries(),
                old(self).cap(),
                ip,
                TrafficOp::Sent(bytes),
            ),
    {
        if !self.enabled || bytes == 0 {
            return ;
        }
        let ghost es = old(self).entries();
        proof {
            lemma_find_key(es, ip);
        }
        match traffic_lru_peek_mut(&mut self.inner, &ip) {
            Some(stats) => {
                stats.add_sent(bytes);
            },
            None => {},
        }
        proof {
            let i = find_key(es, ip);
            if i < es.len() {
                lemma_update_keeps_wf(es, i, es[i].1.spec_add_sent(bytes));
            }
        }
    }

    /// Restores counters saved earlier, as a fresh most-recently-used
    /// entry.
    pub fn restore_stats(&mut self, ip: IpAddr, stats: IpTrafficStats)
        requires
            old(self).wf(),
        ensures
            final(self).wf(),
            final(self).cap() == old(self).cap(),
            final(self).spec_enabled() == old(self).spec_enabled(),
            !old(self).spec_enabled() ==> final(self).entries() == old(self).entries(),
            old(self).spec_enabled() ==> final(self).entries() == spec_cache_put(
                old(self).entries(),
                old(self).cap(),
                ip,
                stats,
            ),
    {
        if !self.enabled {
            return ;
        }
        let ghost es = old(self).entries();
        let ghost cap = old(self).cap();
        traffic_lru_put(&mut self.inner, ip, stats);
        proof {
            lemma_put_len(es, cap, ip, stats);
            lemma_put_unique(es, cap, ip, stats);
        }
    }

    /// The counters of one address, with the order left alone.
    pub fn get_stats(&self, ip: &IpAddr) -> (r: Option<IpTrafficSnapshot>)
        ensures
            !self.spec_enabled() ==> r is None,
            self.spec_enabled() ==> {
                let i = find_key(self.entries(), *ip);
                &&& (i < self.entries().len() ==> r == Some(spec_snapshot(self.entries()[i])))
                &&& (i == self.entries().len() ==> r is None)
            },
    {
        if !self.enabled {
            return None;
        }
        proof {
            lemma_find_key(self.entries(), *ip);
        }
        match traffic_lru_peek(&self.inner, ip) {
            Some(stats) => Some(
                IpTrafficSnapshot {
                    ip: *ip,
                    bytes_received: stats.get_received(),
                    bytes_sent: stats.get_sent(),
                    total_bytes: stats.get_total(),
                    connections: stats.get_connections(),
                },
            ),
            None => None,
        }
    }

    /// Every tracked address's counters, most recently used first.
    pub fn get_all_stats(&self) -> (r: Vec<IpTrafficSnapshot>)
        ensures
            !self.spec_enabled() ==> r@.len() == 0,
            self.spec_enabled() ==> r@ == self.entries().map_values(
                |e: (IpAddr, IpTrafficStats)| spec_snapshot(e),
            ),
    {
        if !self.enabled {
            return Vec::new();
        }
        let entries = traffic_lru_entries_vec(&self.inner);
        let mut out: Vec<IpTrafficSnapshot> = Vec::new();
        let n = entries.len();
        let mut i: usize = 0;
        while i < n
            invariant
                i <= n,
                n == entries@.len(),
                entries@ == self.entries(),
                out@.len() == i,
                forall|j: int| 0 <= j < i ==> out@[j] == spec_snapshot(#[trigger] entries@[j]),
            decreases n - i,
        {
            let e = &entries[i];
            out.push(
                IpTrafficSnapshot {
                    ip: e.0,
                    bytes_received: e.1.get_received(),
                    bytes_sent: e.1.get_sent(),
                    total_bytes: e.1.get_total(),
                    connections: e.1.get_connections(),
                },
            );
            i = i + 1;
        }
        proof {
            assert(out@ =~= self.entries().map_values(
                |e: (IpAddr, IpTrafficStats)| spec_snapshot(e),
            ));
        }
        out
    }

    /// The `n` largest movers: every tracked address's counters, ordered
    /// by total bytes, largest first, cut to `n`.
    pub fn get_top_n(&self, n: usize) -> (r: Vec<IpTrafficSnapshot>)
        ensures
            sorted_by_total_desc(r@),
            r@.len() <= n,
            !self.spec_enabled() ==> r@.len() == 0,
            self.spec_enabled() ==> {
                let all = self.entries().map_values(
                    |e: (IpAddr, IpTrafficStats)| spec_snapshot(e),
                );
                &&& r@.len() == vstd::math::min(n as int, all.len() as int)
                &&& (forall|x: IpTrafficSnapshot| r@.contains(x) ==> all.contains(x))
            },
    {
        let all = self.get_all_stats();
        let mut sorted = sort_by_total_desc(all);
        proof {
            if !self.spec_enabled() {
                assert(sorted@.len() == 0);
            }
        }
        sorted.truncate(n);
        proof {
            assert(forall|j: int| 0 <= j < sorted@.len() ==> sorted@[j] == #[trigger] sorted@[j]);
        }
        sorted
    }

    /// How many addresses are tracked right now.
    pub fn get_tracked_count(&self) -> (n: usize)
        ensures
            !self.spec_enabled() ==> n == 0,
            self.spec_enabled() ==> n == self.entries().len(),
    {
        if !self.enabled {
            return 0;
        }
        traffic_lru_len(&self.inner)
    }

    /// Drops every entry.
    pub fn clear(&mut self)
        requires
            old(self).wf(),
        ensures
            final(self).wf(),
            final(self).cap() == old(self).cap(),
            final(self).spec_enabled() == old(self).spec_enabled(),
            !old(self).spec_enabled() ==> final(self).entries() == old(self).entries(),
            old(self).spec_enabled() ==> final(self).entries() == Seq::<
                (IpAddr, IpTrafficStats),
            >::empty(),
    {
        if !self.enabled {
            return ;
        }
        traffic_lru_clear(&mut self.inner);
    }

    /// The path the host writes the readable statistics file to.
    pub closed spec fn spec_output_file(self) -> Option<String> {
        self.output_file
    }

    /// The path the host saves and restores counters through.
    pub closed spec fn spec_persistence_file(self) -> Option<String> {
        self.persistence_file
    }

    /// The path the host writes the readable statistics file to.
    pub fn output_file(&self) -> (r: Option<String>)
        ensures
            r == self.spec_output_file(),
    {
        match &self.output_file {
            Some(s) => Some(s.clone()),
            None => None,
        }
    }

    /// The path the host saves and restores counters through.
    pub fn persistence_file(&self) -> (r: Option<String>)
        ensures
            r == self.spec_persistence_file(),
    {
        match &self.persistence_file {
            Some(s) => Some(s.clone()),
            None => None,
        }
    }
}

/// An in-place value update keeps lengths and key uniqueness.
proof fn lemma_update_keeps_wf(es: Seq<(IpAddr, IpTrafficStats)>, i: int, v: IpTrafficStats)
    requires
        0 <= i < es.len(),
        unique_keys(es),
    ensures
        spec_cache_update(es, i, v).len() == es.len(),
        unique_keys(spec_cache_update(es, i, v)),
{
    let r = spec_cache_update(es, i, v);
    assert forall|a: int, b: int| 0 <= a < b < r.len() implies (#[trigger] r[a]).0 != (
    #[trigger] r[b]).0 by {
        assert(r[a].0 == es[a].0 && r[b].0 == es[b].0);
    }
}

/// Sorted by total bytes, largest first.
pub open spec fn sorted_by_total_desc(rs: Seq<IpTrafficSnapshot>) -> bool {
    forall|i: int, j: int|
        0 <= i <= j < rs.len() ==> (#[trigger] rs[i]).total_bytes >= (#[trigger] rs[j]).total_bytes
}

/// The position before the first element smaller than `key`.
fn find_pos_by_total(out: &Vec<IpTrafficSnapshot>, key: u64) -> (idx: usize)
    ensures
        idx <= out@.len(),
        forall|j: int| 0 <= j < idx ==> (#[trigger] out@[j]).total_bytes >= key,
        idx < out@.len() ==> out@[idx as int].total_bytes < key,
{
    let m = out.len();
    let mut idx: usize = 0;
    while idx < m
        invariant
            idx <= m,
            m == out@.len(),
            forall|j: int| 0 <= j < idx ==> (#[trigger] out@[j]).total_bytes >= key,
        decreases m - idx,
    {
        if out[idx].total_bytes < key {
            return idx;
        }
        idx = idx + 1;
    }
    idx
}

/// Sorts snapshots by total bytes, largest first, keeping the same
/// elements.
fn sort_by_total_desc(input: Vec<IpTrafficSnapshot>) -> (out: Vec<IpTrafficSnapshot>)
    ensures
        sorted_by_total_desc(out@),
        out@.len() == input@.len(),
        forall|x: IpTrafficSnapshot| out@.contains(x) <==> input@.contains(x),
{
    let iv = input;
    let ghost ivs = iv@;
    let mut out: Vec<IpTrafficSnapshot> = Vec::new();
    let n = iv.len();
    let mut k: usize = 0;
    while k < n
        invariant
            k <= n,
            n == iv@.len(),
            ivs == iv@,
            out@.len() == k,
            sorted_by_total_desc(out@),
            forall|x: IpTrafficSnapshot|
                out@.contains(x) <==> #[trigger] ivs.subrange(0, k as int).contains(x),
        decreases n - k,
    {
        let ghost before = out@;
        let s = iv[k];
        let idx = find_pos_by_total(&out, s.total_bytes);
        let ghost di = idx as int;
        out.insert(idx, s);
        proof {
            let after = out@;
            assert(after =~= before.insert(di, ivs[k as int]));
            crate::domain::lemma_contains_insert(before, di, ivs[k as int]);
            assert(ivs.subrange(0, k as int + 1) =~= ivs.subrange(0, k as int).push(
                ivs[k as int],
            ));
            vstd::seq_lib::lemma_seq_contains_after_push(
                ivs.subrange(0, k as int),
                ivs[k as int],
                ivs[k as int],
            );
            assert forall|i: int, j: int| 0 <= i <= j < after.len() implies (
            #[trigger] after[i]).total_bytes >= (#[trigger] after[j]).total_bytes by {
                if i < di && j < di {
                    assert(after[i] == before[i] && after[j] == before[j]);
                } else if i < di && j == di {
                    assert(before[i].total_bytes >= s.total_bytes);
                } else if i < di && j > di {
                    assert(after[i] == before[i] && after[j] == before[j - 1]);
                } else if i == di && j == di {
                } else if i == di && j > di {
                    assert(after[j] == before[j - 1]);
                    assert(before[di].total_bytes < s.total_bytes);
                    assert(before[j - 1].total_bytes <= before[di].total_bytes);
                } else {
                    assert(after[i] == before[i - 1] && after[j] == before[j - 1]);
                }
            }
            assert forall|x: IpTrafficSnapshot| after.contains(x) <==> #[trigger] ivs.subrange(
                0,
                k as int + 1,
            ).contains(x) by {
                assert(after.contains(x) <==> before.contains(x) || x == ivs[k as int]);
                assert(before.contains(x) <==> ivs.subrange(0, k as int).contains(x));
                vstd::seq_lib::lemma_seq_contains_after_push(
                    ivs.subrange(0, k as int),
                    ivs[k as int],
                    x,
                );
                assert(ivs.subrange(0, k as int + 1).contains(x) <==> ivs.subrange(
                    0,
                    k as int,
                ).contains(x) || x == ivs[k as int]);
            }
        }
        k = k + 1;
    }
    proof {
        assert(ivs.subrange(0, n as int) =~= ivs);
    }
    out
}

/// After a run of accounting steps for `x` that starts with its admitted
/// connection, the tracked counters are exactly the step totals: one
/// connection per admission, and the byte sums of each direction.
pub proof fn lemma_accountant_totals(
    es0: Seq<(IpAddr, IpTrafficStats)>,
    cap: int,
    x: IpAddr,
    ops: Seq<TrafficOp>,
)
    requires
        unique_keys(es0),
        es0.len() <= cap,
        cap >= 1,
        find_key(es0, x) == es0.len(),
        ops.len() > 0,
        ops[0] is Conn,
        count_conns(ops) <= u64::MAX,
        sum_received(ops) <= u64::MAX,
        sum_sent(ops) <= u64::MAX,
    ensures
        ({
            let esf = apply_traffic_ops(es0, cap, x, ops);
            &&& find_key(esf, x) == 0
            &&& esf[0].1.connections == count_conns(ops)
            &&& esf[0].1.bytes_received == sum_received(ops)
            &&& esf[0].1.bytes_sent == sum_sent(ops)
        }),
    decreases ops.len(),
{
    lemma_accountant_totals_aux(es0, cap, x, ops);
}

/// The table after a run of accounting steps.
pub open spec fn apply_traffic_ops(
    es: Seq<(IpAddr, IpTrafficStats)>,
    cap: int,
    x: IpAddr,
    ops: Seq<TrafficOp>,
) -> Seq<(IpAddr, IpTrafficStats)>
    decreases ops.len(),
{
    if ops.len() == 0 {
        es
    } else {
        apply_traffic_op(apply_traffic_ops(es, cap, x, ops.drop_last()), cap, x, ops.last())
    }
}

/// The number of connection steps.
pub open spec fn count_conns(ops: Seq<TrafficOp>) -> int
    decreases ops.len(),
{
    if ops.len() == 0 {
        0
    } else {
        count_conns(ops.drop_last()) + (if ops.last() is Conn {
            1int
        } else {
            0int
        })
    }
}

/// The bytes received over the steps.
pub open spec fn sum_received(ops: Seq<TrafficOp>) -> int
    decreases ops.len(),
{
    if ops.len() == 0 {
        0
    } else {
        sum_received(ops.drop_last()) + (match ops.last() {
            TrafficOp::Received(b) => b as int,
            _ => 0int,
        })
    }
}

/// The bytes sent over the steps.
pub open spec fn sum_sent(ops: Seq<TrafficOp>) -> int
    decreases ops.len(),
{
    if ops.len() == 0 {
        0
    } else {
        sum_sent(ops.drop_last()) + (match ops.last() {
            TrafficOp::Sent(b) => b as int,
            _ => 0int,
        })
    }
}

proof fn lemma_accountant_totals_aux(
    es0: Seq<(IpAddr, IpTrafficStats)>,
    cap: int,
    x: IpAddr,
    ops: Seq<TrafficOp>,
)
    requires
        unique_keys(es0),
        es0.len() <= cap,
        cap >= 1,
        find_key(es0, x) == es0.len(),
        ops.len() > 0,
        ops[0] is Conn,
        count_conns(ops) <= u64::MAX,
        sum_received(ops) <= u64::MAX,
        sum_sent(ops) <= u64::MAX,
    ensures
        ({
            let esf = apply_traffic_ops(es0, cap, x, ops);
            &&& find_key(esf, x) == 0
            &&& 1 <= esf.len() <= cap
            &&& unique_keys(esf)
            &&& esf[0].0 == x
            &&& esf[0].1.connections == count_conns(ops)
            &&& esf[0].1.bytes_received == sum_received(ops)
            &&& esf[0].1.bytes_sent == sum_sent(ops)
        }),
    decreases ops.len(),
{
    lemma_sums_nonneg(ops);
    if ops.len() == 1 {
        assert(ops.drop_last() =~= Seq::<TrafficOp>::empty());
        assert(apply_traffic_ops(es0, cap, x, ops.drop_last()) == es0);
        assert(count_conns(Seq::<TrafficOp>::empty()) == 0);
        assert(sum_received(Seq::<TrafficOp>::empty()) == 0);
        assert(sum_sent(Seq::<TrafficOp>::empty()) == 0);
        let esf = apply_traffic_ops(es0, cap, x, ops);
        assert(esf == apply_traffic_op(es0, cap, x, ops.last()));
        assert(ops.last() == ops[0]);
        lemma_find_key(es0, x);
        let fresh = IpTrafficStats::spec_zero().spec_inc_connections();
        assert(esf == spec_cache_put(es0, cap, x, fresh));
        lemma_put_len(es0, cap, x, fresh);
        lemma_put_unique(es0, cap, x, fresh);
        assert(esf[0] == (x, fresh));
        assert(find_key(esf, x) == 0);
        assert(count_conns(ops) == 1);
        assert(sum_received(ops) == 0);
        assert(sum_sent(ops) == 0);
    } else {
        let pre = ops.drop_last();
        assert(pre[0] == ops[0]);
        lemma_sums_monotone(ops);
        lemma_accountant_totals_aux(es0, cap, x, pre);
        let mid = apply_traffic_ops(es0, cap, x, pre);
        let esf = apply_traffic_ops(es0, cap, x, ops);
        assert(esf == apply_traffic_op(mid, cap, x, ops.last()));
        lemma_find_key(mid, x);
        let st = mid[0].1;
        match ops.last() {
            TrafficOp::Conn => {
                let moved = spec_cache_get(mid, x);
                assert(moved =~= seq![mid[0]] + mid.subrange(0, 0) + mid.subrange(
                    1,
                    mid.len() as int,
                ));
                assert(moved =~= mid);
                lemma_get_unique(mid, x);
                let bumped = st.spec_inc_connections();
                assert(esf == spec_cache_put(mid, cap, x, bumped));
                lemma_put_len(mid, cap, x, bumped);
                lemma_put_unique(mid, cap, x, bumped);
                lemma_find_key(esf, x);
                assert(esf[0] == (x, bumped));
                assert(bumped.connections == count_conns(ops));
            },
            TrafficOp::Received(b) => {
                if b != 0 {
                    let up = st.spec_add_received(b);
                    assert(esf == spec_cache_update(mid, 0, up));
                    lemma_update_keeps_wf(mid, 0, up);
                    assert(esf[0] == (x, up));
                    assert(find_key(esf, x) == 0);
                } else {
                    assert(esf == mid);
                }
            },
            TrafficOp::Sent(b) => {
                if b != 0 {
                    let up = st.spec_add_sent(b);
                    assert(esf == spec_cache_update(mid, 0, up));
                    lemma_update_keeps_wf(mid, 0, up);
                    assert(esf[0] == (x, up));
                    assert(find_key(esf, x) == 0);
                } else {
                    assert(esf == mid);
                }
            },
        }
    }
}

/// Step totals never go negative.
proof fn lemma_sums_nonneg(ops: Seq<TrafficOp>)
    ensures
        count_conns(ops) >= 0,
        sum_received(ops) >= 0,
        sum_sent(ops) >= 0,
    decreases ops.len(),
{
    if ops.len() > 0 {
        lemma_sums_nonneg(ops.drop_last());
    }
}

/// Dropping the last step cannot raise a total.
proof fn lemma_sums_monotone(ops: Seq<TrafficOp>)
    requires
        ops.len() > 0,
    ensures
        count_conns(ops.drop_last()) <= count_conns(ops),
        sum_received(ops.drop_last()) <= sum_received(ops),
        sum_sent(ops.drop_last()) <= sum_sent(ops),
{
    lemma_sums_nonneg(ops.drop_last());
}

/// One kibibyte.
pub const KB: u64 = 1024;

/// One mebibyte.
pub const MB: u64 = 1024 * 1024;

/// One gibibyte.
pub const GB: u64 = 1024 * 1024 * 1024;

/// One tebibyte.
pub const TB: u64 = 1024 * 1024 * 1024 * 1024;

/// `n/unit` in hundredths, rounded half away from zero.
pub open spec fn spec_scaled_hundredths(n: int, unit: int) -> int {
    (200 * n / unit + 1) / 2
}

/// The fractional part as exactly two digits.
pub open spec fn frac_digits(f: int) -> Seq<u8> {
    if f < 10 {
        seq![48u8] + crate::text::dec_digits(f as nat)
    } else {
        crate::text::dec_digits(f as nat)
    }
}

/// The scaled value as ASCII: integer part, a dot, two fraction digits.
pub open spec fn scaled_ascii(n: int, unit: int) -> Seq<u8> {
    let v = spec_scaled_hundredths(n, unit);
    crate::text::dec_digits((v / 100) as nat) + seq![46u8] + frac_digits(v % 100)
}

/// The rendering of a byte count as ASCII: scaled to the largest unit it
/// reaches, with two decimals, or the plain count below one kibibyte.
pub open spec fn spec_format_bytes_ascii(n: int) -> Seq<u8> {
    if n >= TB {
        scaled_ascii(n, TB as int) + seq![32u8, 84u8, 66u8]
    } else if n >= GB {
        scaled_ascii(n, GB as int) + seq![32u8, 71u8, 66u8]
    } else if n >= MB {
        scaled_ascii(n, MB as int) + seq![32u8, 77u8, 66u8]
    } else if n >= KB {
        scaled_ascii(n, KB as int) + seq![32u8, 75u8, 66u8]
    } else {
        crate::text::dec_digits(n as nat) + seq![32u8, 66u8]
    }
}

/// The rendering of a byte count, as text.
pub open spec fn spec_format_bytes(n: int) -> Seq<char> {
    crate::text::ascii_chars_of(spec_format_bytes_ascii(n))
}

/// Appends the decimal digits of a 128-bit value.
fn push_dec_digits_u128(out: &mut Vec<u8>, n: u128)
    ensures
        final(out)@ == old(out)@ + crate::text::dec_digits(n as nat),
    decreases n,
{
    if n < 10 {
        out.push(48 + (n as u8));
        assert(out@ =~= old(out)@ + crate::text::dec_digits(n as nat));
    } else {
        push_dec_digits_u128(out, n / 10);
        let d: u8 = (n % 10) as u8;
        out.push(48 + d);
        assert(out@ =~= old(out)@ + crate::text::dec_digits(n as nat));
    }
}

/// Appends the scaled rendering of `bytes` over `unit`.
fn push_scaled(out: &mut Vec<u8>, bytes: u64, unit: u64)
    requires
        unit >= 1,
    ensures
        final(out)@ == old(out)@ + scaled_ascii(bytes as int, unit as int),
{
    let t: u128 = 200u128 * (bytes as u128);
    let d: u128 = t / (unit as u128);
    let v: u128 = (d + 1) / 2;
    let q: u128 = v / 100;
    let f: u128 = v % 100;
    proof {
        assert(v == spec_scaled_hundredths(bytes as int, unit as int));
    }
    push_dec_digits_u128(out, q);
    out.push(46);
    let ghost mid = out@;
    if f < 10 {
        out.push(48);
        push_dec_digits_u128(out, f);
        proof {
            assert(out@ =~= mid + frac_digits(f as int));
        }
    } else {
        push_dec_digits_u128(out, f);
        proof {
            assert(out@ =~= mid + frac_digits(f as int));
        }
    }
    proof {
        assert(out@ =~= old(out)@ + scaled_ascii(bytes as int, unit as int));
    }
}

/// Every byte of the rendering is ASCII.
proof fn lemma_format_bytes_ascii(n: int)
    requires
        n >= 0,
    ensures
        forall|j: int|
            0 <= j < spec_format_bytes_ascii(n).len() ==> #[trigger] spec_format_bytes_ascii(
                n,
            )[j] < 0x80,
{
    crate::text::lemma_dec_digits_ascii(n as nat);
    if n >= KB {
        let unit: int = if n >= TB {
            TB as int
        } else if n >= GB {
            GB as int
        } else if n >= MB {
            MB as int
        } else {
            KB as int
        };
        let v = spec_scaled_hundredths(n, unit);
        crate::text::lemma_dec_digits_ascii((v / 100) as nat);
        crate::text::lemma_dec_digits_ascii((v % 100) as nat);
        assert forall|j: int| 0 <= j < spec_format_bytes_ascii(n).len()
            implies #[trigger] spec_format_bytes_ascii(n)[j] < 0x80 by {
            let q = crate::text::dec_digits((v / 100) as nat);
            let fr = frac_digits(v % 100);
            let body = q + seq![46u8] + fr;
            if j < q.len() {
            } else if j == q.len() {
            } else if j < body.len() {
                assert(body[j] == fr[j - q.len() - 1]);
                if v % 100 < 10 {
                    if j - q.len() - 1 > 0 {
                        assert(fr[j - q.len() - 1] == crate::text::dec_digits(
                            (v % 100) as nat,
                        )[j - q.len() - 2]);
                    }
                }
            } else {
            }
        }
    } else {
        assert forall|j: int| 0 <= j < spec_format_bytes_ascii(n).len()
            implies #[trigger] spec_format_bytes_ascii(n)[j] < 0x80 by {
            let dd = crate::text::dec_digits(n as nat);
            if j < dd.len() {
            }
        }
    }
}

/// Renders a byte count as ASCII bytes.
pub(crate) fn format_bytes_ascii(bytes: u64) -> (out: Vec<u8>)
    ensures
        out@ == spec_format_bytes_ascii(bytes as int),
        crate::text::all_ascii(out@),
{
    let mut out: Vec<u8> = Vec::new();
    if bytes >= TB {
        push_scaled(&mut out, bytes, TB);
        out.push(32);
        out.push(84);
        out.push(66);
    } else if bytes >= GB {
        push_scaled(&mut out, bytes, GB);
        out.push(32);
        out.push(71);
        out.push(66);
    } else if bytes >= MB {
        push_scaled(&mut out, bytes, MB);
        out.push(32);
        out.push(77);
        out.push(66);
    } else if bytes >= KB {
        push_scaled(&mut out, bytes, KB);
        out.push(32);
        out.push(75);
        out.push(66);
    } else {
        crate::text::push_dec_digits(&mut out, bytes);
        out.push(32);
        out.push(66);
    }
    proof {
        assert(out@ =~= spec_format_bytes_ascii(bytes as int));
        lemma_format_bytes_ascii(bytes as int);
    }
    out
}

/// Renders a byte count for people: scaled to the largest unit it reaches,
/// with two decimals, or plain below one kibibyte.
pub fn format_bytes(bytes: u64) -> (s: String)
    ensures
        s@ == spec_format_bytes(bytes as int),
{
    let out = format_bytes_ascii(bytes);
    proof {
        crate::text::lemma_ascii_decode(out@);
        assert(crate::text::ascii_chars_of(out@) == spec_format_bytes(bytes as int));
    }
    let r = crate::text::string_from_utf8(out);
    r.unwrap()
}

/// `n` spaces.
pub open spec fn spaces(n: int) -> Seq<u8> {
    Seq::new((if n >= 0 { n } else { 0 }) as nat, |i: int| 32u8)
}

/// `n` dashes.
pub open spec fn dashes(n: int) -> Seq<u8> {
    Seq::new((if n >= 0 { n } else { 0 }) as nat, |i: int| 45u8)
}

/// `s` in a left-aligned cell of width `w`.
pub open spec fn pad_right(s: Seq<u8>, w: int) -> Seq<u8> {
    if s.len() >= w {
        s
    } else {
        s + spaces(w - s.len())
    }
}

/// `s` in a right-aligned cell of width `w`.
pub open spec fn pad_left(s: Seq<u8>, w: int) -> Seq<u8> {
    if s.len() >= w {
        s
    } else {
        spaces(w - s.len()) + s
    }
}

/// One line of the statistics table: rank, address, bytes up, down and
/// total, and the connection count, in fixed-width columns.
pub open spec fn spec_summary_row(rank: nat, snap: IpTrafficSnapshot) -> Seq<u8> {
    pad_right(crate::text::dec_digits(rank), 4) + seq![32u8] + pad_right(
        crate::ip::spec_format_ip(snap.ip),
        40,
    ) + seq![32u8] + pad_left(spec_format_bytes_ascii(snap.bytes_received as int), 12)
        + seq![32u8] + pad_left(spec_format_bytes_ascii(snap.bytes_sent as int), 12) + seq![32u8]
        + pad_left(spec_format_bytes_ascii(snap.total_bytes as int), 12) + seq![32u8] + pad_left(
        crate::text::dec_digits(snap.connections as nat),
        8,
    ) + seq![10u8]
}

/// The rows of the table, ranked from one.
pub open spec fn spec_summary_rows(rs: Seq<IpTrafficSnapshot>) -> Seq<u8>
    decreases rs.len(),
{
    if rs.len() == 0 {
        Seq::empty()
    } else {
        spec_summary_rows(rs.drop_last()) + spec_summary_row(rs.len() as nat, rs.last())
    }
}

/// The header line of the table.
pub open spec fn spec_summary_header() -> Seq<u8> {
    pad_right(("rank").spec_bytes(), 4) + seq![32u8] + pad_right(("ip").spec_bytes(), 40)
        + seq![32u8] + pad_left(("up").spec_bytes(), 12) + seq![32u8] + pad_left(
        ("down").spec_bytes(),
        12,
    ) + seq![32u8] + pad_left(("total").spec_bytes(), 12) + seq![32u8] + pad_left(
        ("conns").spec_bytes(),
        8,
    ) + seq![10u8]
}

/// The whole statistics table: header, rows between dashed rules, and the
/// count of tracked addresses; or one line when nothing is tracked.
pub open spec fn spec_traffic_summary(rs: Seq<IpTrafficSnapshot>, count: nat) -> Seq<u8> {
    if rs.len() == 0 {
        ("no tracked traffic").spec_bytes() + seq![10u8]
    } else {
        spec_summary_header() + dashes(100) + seq![10u8] + spec_summary_rows(rs) + dashes(100)
            + seq![10u8] + ("tracked addresses: ").spec_bytes() + crate::text::dec_digits(count)
            + seq![10u8]
    }
}

/// Appends `n` copies of one ASCII byte.
fn push_repeat(out: &mut Vec<u8>, b: u8, n: usize)
    requires
        b < 0x80,
    ensures
        final(out)@ == old(out)@ + Seq::new(n as nat, |i: int| b),
        crate::text::all_ascii(old(out)@) ==> crate::text::all_ascii(final(out)@),
{
    let ghost before = out@;
    let mut k: usize = 0;
    while k < n
        invariant
            k <= n,
            out@ == before + Seq::new(k as nat, |i: int| b),
        decreases n - k,
    {
        out.push(b);
        proof {
            assert(out@ =~= before + Seq::new(k as nat + 1, |i: int| b));
        }
        k = k + 1;
    }
    proof {
        assert forall|i: int|
            crate::text::all_ascii(before) && 0 <= i < out@.len() implies #[trigger] out@[i]
            < 0x80 by {
            if i >= before.len() {
                assert(out@[i] == b);
            }
        }
    }
}

/// Appends an ASCII cell, left-aligned in a column of width `w`.
fn push_cell_right_padded(out: &mut Vec<u8>, cell: &Vec<u8>, w: usize)
    requires
        crate::text::all_ascii(cell@),
    ensures
        final(out)@ == old(out)@ + pad_right(cell@, w as int),
        crate::text::all_ascii(old(out)@) ==> crate::text::all_ascii(final(out)@),
{
    let ghost before = out@;
    out.extend_from_slice(cell.as_slice());
    proof {
        assert forall|i: int|
            crate::text::all_ascii(before) && 0 <= i < out@.len() implies #[trigger] out@[i]
            < 0x80 by {
            if i >= before.len() {
                assert(out@[i] == cell@[i - before.len()]);
            }
        }
    }
    if cell.len() < w {
        push_repeat(out, 32, w - cell.len());
        proof {
            assert(Seq::new((w - cell@.len()) as nat, |i: int| 32u8) =~= spaces(
                w - cell@.len(),
            ));
            assert(out@ =~= before + pad_right(cell@, w as int));
        }
    } else {
        proof {
            assert(out@ =~= before + pad_right(cell@, w as int));
        }
    }
}

/// Appends an ASCII cell, right-aligned in a column of width `w`.
fn push_cell_left_padded(out: &mut Vec<u8>, cell: &Vec<u8>, w: usize)
    requires
        crate::text::all_ascii(cell@),
    ensures
        final(out)@ == old(out)@ + pad_left(cell@, w as int),
        crate::text::all_ascii(old(out)@) ==> crate::text::all_ascii(final(out)@),
{
    let ghost before = out@;
    if cell.len() < w {
        push_repeat(out, 32, w - cell.len());
        proof {
            assert(Seq::new((w - cell@.len()) as nat, |i: int| 32u8) =~= spaces(
                w - cell@.len(),
            ));
        }
    }
    let ghost mid = out@;
    out.extend_from_slice(cell.as_slice());
    proof {
        assert forall|i: int|
            crate::text::all_ascii(mid) && 0 <= i < out@.len() implies #[trigger] out@[i]
            < 0x80 by {
            if i >= mid.len() {
                assert(out@[i] == cell@[i - mid.len()]);
            }
        }
        assert(out@ =~= before + pad_left(cell@, w as int));
    }
}

/// A fresh ASCII cell holding a decimal count.
fn dec_cell(n: u64) -> (cell: Vec<u8>)
    ensures
        cell@ == crate::text::dec_digits(n as nat),
        crate::text::all_ascii(cell@),
{
    let mut cell: Vec<u8> = Vec::new();
    crate::text::push_dec_digits(&mut cell, n);
    proof {
        assert(cell@ =~= crate::text::dec_digits(n as nat));
        crate::text::lemma_dec_digits_ascii(n as nat);
    }
    cell
}

/// Appends one table row.
#[verifier::rlimit(100)]
fn push_summary_row(out: &mut Vec<u8>, rank: u64, snap: &IpTrafficSnapshot)
    requires
        crate::text::all_ascii(old(out)@),
    ensures
        final(out)@ == old(out)@ + spec_summary_row(rank as nat, *snap),
        crate::text::all_ascii(final(out)@),
{
    let ghost before = out@;
    let cell = dec_cell(rank);
    push_cell_right_padded(out, &cell, 4);
    out.push(32);
    let cell = crate::ip::format_ip_ascii(snap.ip);
    push_cell_right_padded(out, &cell, 40);
    out.push(32);
    let cell = format_bytes_ascii(snap.bytes_received);
    push_cell_left_padded(out, &cell, 12);
    out.push(32);
    let cell = format_bytes_ascii(snap.bytes_sent);
    push_cell_left_padded(out, &cell, 12);
    out.push(32);
    let cell = format_bytes_ascii(snap.total_bytes);
    push_cell_left_padded(out, &cell, 12);
    out.push(32);
    let cell = dec_cell(snap.connections);
    push_cell_left_padded(out, &cell, 8);
    out.push(10);
    proof {
        assert(out@ =~= before + spec_summary_row(rank as nat, *snap));
    }
}

/// Renders the statistics table for a ranked list of snapshots, exactly as
/// [`spec_traffic_summary`] lays it out.
pub fn summary_table(rows: &Vec<IpTrafficSnapshot>, count: usize) -> (s: String)
    ensures
        s@ == crate::text::ascii_chars_of(spec_traffic_summary(rows@, count as nat)),
{
    let mut out: Vec<u8> = Vec::new();
    proof {
        assert(crate::text::all_ascii(out@));
        reveal_strlit("no tracked traffic");
        reveal_strlit("rank");
        reveal_strlit("ip");
        reveal_strlit("up");
        reveal_strlit("down");
        reveal_strlit("total");
        reveal_strlit("conns");
        reveal_strlit("tracked addresses: ");
        assert(vstd::string::is_ascii("no tracked traffic"));
        assert(vstd::string::is_ascii("rank"));
        assert(vstd::string::is_ascii("ip"));
        assert(vstd::string::is_ascii("up"));
        assert(vstd::string::is_ascii("down"));
        assert(vstd::string::is_ascii("total"));
        assert(vstd::string::is_ascii("conns"));
        assert(vstd::string::is_ascii("tracked addresses: "));
    }
    if rows.len() == 0 {
        crate::text::push_ascii_label(&mut out, "no tracked traffic");
        out.push(10);
        proof {
            assert(out@ =~= spec_traffic_summary(rows@, count as nat));
            crate::text::lemma_ascii_decode(out@);
        }
        let r = crate::text::string_from_utf8(out);
        return r.unwrap();
    }
    // header
    let mut cell: Vec<u8> = Vec::new();
    crate::text::push_ascii_label(&mut cell, "rank");
    push_cell_right_padded(&mut out, &cell, 4);
    out.push(32);
    let mut cell: Vec<u8> = Vec::new();
    crate::text::push_ascii_label(&mut cell, "ip");
    push_cell_right_padded(&mut out, &cell, 40);
    out.push(32);
    let mut cell: Vec<u8> = Vec::new();
    crate::text::push_ascii_label(&mut cell, "up");
    push_cell_left_padded(&mut out, &cell, 12);
    out.push(32);
    let mut cell: Vec<u8> = Vec::new();
    crate::text::push_ascii_label(&mut cell, "down");
    push_cell_left_padded(&mut out, &cell, 12);
    out.push(32);
    let mut cell: Vec<u8> = Vec::new();
    crate::text::push_ascii_label(&mut cell, "total");
    push_cell_left_padded(&mut out, &cell, 12);
    out.push(32);
    let mut cell: Vec<u8> = Vec::new();
    crate::text::push_ascii_label(&mut cell, "conns");
    push_cell_left_padded(&mut out, &cell, 8);
    out.push(10);
    proof {
        assert(out@ =~= spec_summary_header());
        assert(crate::text::all_ascii(out@));
    }
    push_repeat(&mut out, 45, 100);
    out.push(10);
    proof {
        assert(Seq::new(100nat, |i: int| 45u8) =~= dashes(100));
        assert(out@ =~= spec_summary_header() + dashes(100) + seq![10u8]);
        assert(rows@.subrange(0, 0) =~= Seq::<IpTrafficSnapshot>::empty());
    }
    let ghost lead = out@;
    let n = rows.len();
    let mut i: usize = 0;
    while i < n
        invariant
            i <= n,
            n == rows@.len(),
            lead == spec_summary_header() + dashes(100) + seq![10u8],
            out@ == lead + spec_summary_rows(rows@.subrange(0, i as int)),
            crate::text::all_ascii(out@),
        decreases n - i,
    {
        let ghost before = out@;
        let snap = rows[i];
        push_summary_row(&mut out, (i + 1) as u64, &snap);
        proof {
            let next = rows@.subrange(0, i as int + 1);
            assert(next.drop_last() =~= rows@.subrange(0, i as int));
            assert(next.last() == rows@[i as int]);
            assert(out@ =~= lead + spec_summary_rows(next));
        }
        i = i + 1;
    }
    proof {
        assert(rows@.subrange(0, n as int) =~= rows@);
    }
    push_repeat(&mut out, 45, 100);
    out.push(10);
    crate::text::push_ascii_label(&mut out, "tracked addresses: ");
    let cell = dec_cell(count as u64);
    out.extend_from_slice(cell.as_slice());
    out.push(10);
    proof {
        assert(Seq::new(100nat, |i: int| 45u8) =~= dashes(100));
        assert(out@ =~= spec_traffic_summary(rows@, count as nat));
        assert forall|j: int| 0 <= j < out@.len() implies #[trigger] out@[j] < 0x80 by {
            let base = lead + spec_summary_rows(rows@) + dashes(100) + seq![10u8]
                + ("tracked addresses: ").spec_bytes();
            if j < base.len() {
            } else {
            }
        }
        crate::text::lemma_ascii_decode(out@);
    }
    let r = crate::text::string_from_utf8(out);
    r.unwrap()
}

} // verus!
