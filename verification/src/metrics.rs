//! Counters that describe the proxy's work.
//!
//! Every counter is a plain integer owned by the engine; each mutator
//! states exactly which counter moves and that every other one stays. The
//! host is responsible for sharing and synchronisation; the contracts here
//! describe what one update does.

use vstd::prelude::*;
use vstd::string::StringSliceAdditionalSpecFns;

use crate::text::all_ascii;
use crate::text::ascii_chars_of;
use crate::text::dec_digits;
use crate::text::lemma_ascii_decode;
use crate::text::push_labeled_counter;
use crate::text::string_from_utf8;

verus! {

/// The process-wide counters of the proxy.
pub struct Metrics {
    pub total_connections: u64,
    pub active_connections: usize,
    pub failed_connections: u64,
    pub bytes_received: u64,
    pub bytes_sent: u64,
    pub direct_requests: u64,
    pub socks5_requests: u64,
    pub rejected_requests: u64,
    pub dns_cache_hits: u64,
    pub dns_cache_misses: u64,
    pub sni_parse_errors: u64,
    pub socks5_errors: u64,
    pub connection_timeouts: u64,
}

impl Metrics {
    /// A fresh set of counters, all zero.
    pub fn new() -> (m: Metrics)
        ensures
            m == Metrics::spec_zero(),
    {
        Metrics {
            total_connections: 0,
            active_connections: 0,
            failed_connections: 0,
            bytes_received: 0,
            bytes_sent: 0,
            direct_requests: 0,
            socks5_requests: 0,
            rejected_requests: 0,
            dns_cache_hits: 0,
            dns_cache_misses: 0,
            sni_parse_errors: 0,
            socks5_errors: 0,
            connection_timeouts: 0,
        }
    }

    /// The all-zero counter state.
    pub open spec fn spec_zero() -> Metrics {
        Metrics {
            total_connections: 0,
            active_connections: 0,
            failed_connections: 0,
            bytes_received: 0,
            bytes_sent: 0,
            direct_requests: 0,
            socks5_requests: 0,
            rejected_requests: 0,
            dns_cache_hits: 0,
            dns_cache_misses: 0,
            sni_parse_errors: 0,
            socks5_errors: 0,
            connection_timeouts: 0,
        }
    }

    pub fn inc_total_connections(&mut self)
        requires
            old(self).total_connections < u64::MAX,
        ensures
            *final(self) == (Metrics { total_connections: (old(self).total_connections + 1) as u64, ..*old(self) }),
    {
        self.total_connections = self.total_connections + 1;
    }

    pub fn inc_active_connections(&mut self)
        requires
            old(self).active_connections < usize::MAX,
        ensures
            *final(self) == (Metrics { active_connections: (old(self).active_connections + 1) as usize, ..*old(self) }),
    {
        self.active_connections = self.active_connections + 1;
    }

    /// The engine decrements only after a matching increment, so the count
    /// can never underflow.
    pub fn dec_active_connections(&mut self)
        requires
            old(self).active_connections > 0,
        ensures
            *final(self) == (Metrics { active_connections: (old(self).active_connections - 1) as usize, ..*old(self) }),
    {
        self.active_connections = self.active_connections - 1;
    }

    pub fn inc_failed_connections(&mut self)
        requires
            old(self).failed_connections < u64::MAX,
        ensures
            *final(self) == (Metrics { failed_connections: (old(self).failed_connections + 1) as u64, ..*old(self) }),
    {
        self.failed_connections = self.failed_connections + 1;
    }

    pub fn add_bytes_received(&mut self, bytes: u64)
        requires
            old(self).bytes_received + bytes <= u64::MAX,
        ensures
            *final(self) == (Metrics { bytes_received: (old(self).bytes_received + bytes) as u64, ..*old(self) }),
    {
        self.bytes_received = self.bytes_received + bytes;
    }

    pub fn add_bytes_sent(&mut self, bytes: u64)
        requires
            old(self).bytes_sent + bytes <= u64::MAX,
        ensures
            *final(self) == (Metrics { bytes_sent: (old(self).bytes_sent + bytes) as u64, ..*old(self) }),
    {
        self.bytes_sent = self.bytes_sent + bytes;
    }

    pub fn inc_direct_requests(&mut self)
        requires
            old(self).direct_requests < u64::MAX,
        ensures
            *final(self) == (Metrics { direct_requests: (old(self).direct_requests + 1) as u64, ..*old(self) }),
    {
        self.direct_requests = self.direct_requests + 1;
    }

    pub fn inc_socks5_requests(&mut self)
        requires
            old(self).socks5_requests < u64::MAX,
        ensures
            *final(self) == (Metrics { socks5_requests: (old(self).socks5_requests + 1) as u64, ..*old(self) }),
    {
        self.socks5_requests = self.socks5_requests + 1;
    }

    pub fn inc_rejected_requests(&mut self)
        requires
            old(self).rejected_requests < u64::MAX,
        ensures
            *final(self) == (Metrics { rejected_requests: (old(self).rejected_requests + 1) as u64, ..*old(self) }),
    {
        self.rejected_requests = self.rejected_requests + 1;
    }

    pub fn inc_dns_cache_hits(&mut self)
        requires
            old(self).dns_cache_hits < u64::MAX,
        ensures
            *final(self) == (Metrics { dns_cache_hits: (old(self).dns_cache_hits + 1) as u64, ..*old(self) }),
    {
        self.dns_cache_hits = self.dns_cache_hits + 1;
    }

    pub fn inc_dns_cache_misses(&mut self)
        requires
            old(self).dns_cache_misses < u64::MAX,
        ensures
            *final(self) == (Metrics { dns_cache_misses: (old(self).dns_cache_misses + 1) as u64, ..*old(self) }),
    {
        self.dns_cache_misses = self.dns_cache_misses + 1;
    }

    pub fn inc_sni_parse_errors(&mut self)
        requires
            old(self).sni_parse_errors < u64::MAX,
        ensures
            *final(self) == (Metrics { sni_parse_errors: (old(self).sni_parse_errors + 1) as u64, ..*old(self) }),
    {
        self.sni_parse_errors = self.sni_parse_errors + 1;
    }

    pub fn inc_socks5_errors(&mut self)
        requires
            old(self).socks5_errors < u64::MAX,
        ensures
            *final(self) == (Metrics { socks5_errors: (old(self).socks5_errors + 1) as u64, ..*old(self) }),
    {
        self.socks5_errors = self.socks5_errors + 1;
    }

    pub fn inc_connection_timeouts(&mut self)
        requires
            old(self).connection_timeouts < u64::MAX,
        ensures
            *final(self) == (Metrics { connection_timeouts: (old(self).connection_timeouts + 1) as u64, ..*old(self) }),
    {
        self.connection_timeouts = self.connection_timeouts + 1;
    }

    pub fn get_total_connections(&self) -> (n: u64)
        ensures
            n == self.total_connections,
    {
        self.total_connections
    }

    pub fn get_active_connections(&self) -> (n: usize)
        ensures
            n == self.active_connections,
    {
        self.active_connections
    }

    pub fn get_rejected_requests(&self) -> (n: u64)
        ensures
            n == self.rejected_requests,
    {
        self.rejected_requests
    }

    /// A copy of every counter at one moment.
    pub fn snapshot(&self) -> (s: MetricsSnapshot)
        ensures
            s.total_connections == self.total_connections,
            s.active_connections == self.active_connections,
            s.failed_connections == self.failed_connections,
            s.bytes_received == self.bytes_received,
            s.bytes_sent == self.bytes_sent,
            s.direct_requests == self.direct_requests,
            s.socks5_requests == self.socks5_requests,
            s.rejected_requests == self.rejected_requests,
            s.dns_cache_hits == self.dns_cache_hits,
            s.dns_cache_misses == self.dns_cache_misses,
            s.sni_parse_errors == self.sni_parse_errors,
            s.socks5_errors == self.socks5_errors,
            s.connection_timeouts == self.connection_timeouts,
    {
        MetricsSnapshot {
            total_connections: self.total_connections,
            active_connections: self.active_connections,
            failed_connections: self.failed_connections,
            bytes_received: self.bytes_received,
            bytes_sent: self.bytes_sent,
            direct_requests: self.direct_requests,
            socks5_requests: self.socks5_requests,
            rejected_requests: self.rejected_requests,
            dns_cache_hits: self.dns_cache_hits,
            dns_cache_misses: self.dns_cache_misses,
            sni_parse_errors: self.sni_parse_errors,
            socks5_errors: self.socks5_errors,
            connection_timeouts: self.connection_timeouts,
        }
    }
}

/// The summary text of a counter state: one line per counter, each the
/// counter's name and its decimal value.
pub open spec fn spec_summary_bytes(m: Metrics) -> Seq<u8> {
    ("total connections: ").spec_bytes() + dec_digits(m.total_connections as nat) + (
    "\nactive connections: ").spec_bytes() + dec_digits(m.active_connections as nat) + (
    "\nfailed connections: ").spec_bytes() + dec_digits(m.failed_connections as nat) + (
    "\ndirect requests: ").spec_bytes() + dec_digits(m.direct_requests as nat) + (
    "\nsocks5 requests: ").spec_bytes() + dec_digits(m.socks5_requests as nat) + (
    "\nrejected requests: ").spec_bytes() + dec_digits(m.rejected_requests as nat) + (
    "\nbytes received: ").spec_bytes() + dec_digits(m.bytes_received as nat) + (
    "\nbytes sent: ").spec_bytes() + dec_digits(m.bytes_sent as nat) + (
    "\ndns cache hits: ").spec_bytes() + dec_digits(m.dns_cache_hits as nat) + (
    "\ndns cache misses: ").spec_bytes() + dec_digits(m.dns_cache_misses as nat) + (
    "\nsni parse errors: ").spec_bytes() + dec_digits(m.sni_parse_errors as nat) + (
    "\nsocks5 errors: ").spec_bytes() + dec_digits(m.socks5_errors as nat) + (
    "\nconnection timeouts: ").spec_bytes() + dec_digits(m.connection_timeouts as nat)
}

impl Metrics {
    /// Renders every counter on its own line, for the periodic report.
    pub fn print_summary(&self) -> (s: String)
        ensures
            s@ == ascii_chars_of(spec_summary_bytes(*self)),
    {
        let mut out: Vec<u8> = Vec::new();
        proof {
            reveal_strlit("total connections: ");
            reveal_strlit("\nactive connections: ");
            reveal_strlit("\nfailed connections: ");
            reveal_strlit("\ndirect requests: ");
            reveal_strlit("\nsocks5 requests: ");
            reveal_strlit("\nrejected requests: ");
            reveal_strlit("\nbytes received: ");
            reveal_strlit("\nbytes sent: ");
            reveal_strlit("\ndns cache hits: ");
            reveal_strlit("\ndns cache misses: ");
            reveal_strlit("\nsni parse errors: ");
            reveal_strlit("\nsocks5 errors: ");
            reveal_strlit("\nconnection timeouts: ");
            assert(vstd::string::is_ascii("total connections: "));
            assert(vstd::string::is_ascii("\nactive connections: "));
            assert(vstd::string::is_ascii("\nfailed connections: "));
            assert(vstd::string::is_ascii("\ndirect requests: "));
            assert(vstd::string::is_ascii("\nsocks5 requests: "));
            assert(vstd::string::is_ascii("\nrejected requests: "));
            assert(vstd::string::is_ascii("\nbytes received: "));
            assert(vstd::string::is_ascii("\nbytes sent: "));
            assert(vstd::string::is_ascii("\ndns cache hits: "));
            assert(vstd::string::is_ascii("\ndns cache misses: "));
            assert(vstd::string::is_ascii("\nsni parse errors: "));
            assert(vstd::string::is_ascii("\nsocks5 errors: "));
            assert(vstd::string::is_ascii("\nconnection timeouts: "));
            assert(all_ascii(out@));
        }
        push_labeled_counter(&mut out, "total connections: ", self.total_connections);
        push_labeled_counter(
            &mut out,
            "\nactive connections: ",
            self.active_connections as u64,
        );
        push_labeled_counter(&mut out, "\nfailed connections: ", self.failed_connections);
        push_labeled_counter(&mut out, "\ndirect requests: ", self.direct_requests);
        push_labeled_counter(&mut out, "\nsocks5 requests: ", self.socks5_requests);
        push_labeled_counter(&mut out, "\nrejected requests: ", self.rejected_requests);
        push_labeled_counter(&mut out, "\nbytes received: ", self.bytes_received);
        push_labeled_counter(&mut out, "\nbytes sent: ", self.bytes_sent);
        push_labeled_counter(&mut out, "\ndns cache hits: ", self.dns_cache_hits);
        push_labeled_counter(&mut out, "\ndns cache misses: ", self.dns_cache_misses);
        push_labeled_counter(&mut out, "\nsni parse errors: ", self.sni_parse_errors);
        push_labeled_counter(&mut out, "\nsocks5 errors: ", self.socks5_errors);
        push_labeled_counter(&mut out, "\nconnection timeouts: ", self.connection_timeouts);
        proof {
            assert(out@ =~= spec_summary_bytes(*self));
            lemma_ascii_decode(out@);
        }
        let r = string_from_utf8(out);
        r.unwrap()
    }
}

impl Default for Metrics {
    fn default() -> (m: Metrics)
        ensures
            m == Metrics::spec_zero(),
    {
        Metrics::new()
    }
}

/// The counters at one moment, detached from the live [`Metrics`].
#[derive(Clone, Debug)]
pub struct MetricsSnapshot {
    pub total_connections: u64,
    pub active_connections: usize,
    pub failed_connections: u64,
    pub bytes_received: u64,
    pub bytes_sent: u64,
    pub direct_requests: u64,
    pub socks5_requests: u64,
    pub rejected_requests: u64,
    pub dns_cache_hits: u64,
    pub dns_cache_misses: u64,
    pub sni_parse_errors: u64,
    pub socks5_errors: u64,
    pub connection_timeouts: u64,
}

/// Witness that one connection is counted as active.
///
/// Created when a connection is admitted (which raises both the total and
/// the active count) and consumed by [`ConnectionGuard::finish`] on the one
/// guaranteed-release path (which lowers the active count). Because the
/// witness is moved into `finish`, a connection can be released at most
/// once, so the active count never underflows.
pub struct ConnectionGuard {
    _private: (),
}

impl ConnectionGuard {
    /// Admit one connection: count it and mark it active.
    pub fn new(metrics: &mut Metrics) -> (g: ConnectionGuard)
        requires
            old(metrics).total_connections < u64::MAX,
            old(metrics).active_connections < usize::MAX,
        ensures
            *final(metrics) == (Metrics {
                total_connections: (old(metrics).total_connections + 1) as u64,
                active_connections: (old(metrics).active_connections + 1) as usize,
                ..*old(metrics)
            }),
    {
        metrics.inc_total_connections();
        metrics.inc_active_connections();
        ConnectionGuard { _private: () }
    }

    /// Release the connection this witness stands for.
    pub fn finish(self, metrics: &mut Metrics)
        requires
            old(metrics).active_connections > 0,
        ensures
            *final(metrics) == (Metrics {
                active_connections: (old(metrics).active_connections - 1) as usize,
                ..*old(metrics)
            }),
    {
        metrics.dec_active_connections();
    }
}

} // verus!
