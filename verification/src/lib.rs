//! A verified core for an SNI-routing TCP forward proxy.
//!
//! The library covers the pure logic of the proxy: extracting the server
//! name from a TLS ClientHello, classifying it against domain and IP
//! whitelists, the SOCKS5 client handshake framing, a bounded LRU DNS
//! cache, traffic accounting, and the decision logic of the accept loop
//! and of each connection. The host process supplies the sockets, the
//! clock and the files.

pub mod cache_model;
pub mod config;
pub mod dns_cache;
pub mod domain;
pub mod engine;
pub mod ip;
pub mod ip_matcher;
pub mod ip_traffic;
pub mod logger;
pub mod metrics;
pub mod socks5;
pub mod text;
pub mod tls;
pub mod tuning;

pub use config::{validate_config, Config, ConfigError};
pub use dns_cache::DnsCache;
pub use domain::DomainMatcher;
pub use engine::SniProxy;
pub use ip::IpAddr;
pub use ip_matcher::IpMatcher;
pub use ip_traffic::{format_bytes, IpTrafficSnapshot, IpTrafficStats, IpTrafficTracker};
pub use logger::{LogConfig, LogLevel, LogOutput};
pub use metrics::{ConnectionGuard, Metrics, MetricsSnapshot};
pub use socks5::{SocketAddress, Socks5Config, Socks5Error, Socks5Session};
pub use tls::{parse_sni, parse_sni_extension};
pub use tuning::dns_cache_capacity;
