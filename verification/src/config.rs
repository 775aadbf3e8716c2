//! The proxy's configuration, validated before anything starts.
//!
//! The host parses its configuration file into [`Config`] and must call
//! [`validate_config`] before building the proxy: every rule the engine
//! later counts on — a listening address that parses, at least one
//! whitelist, consistent credentials, a non-zero tracking capacity, sound
//! logging settings — is checked here, and the first broken rule is named.

use vstd::prelude::*;
use vstd::string::StringSliceAdditionalSpecFns;
use vstd::utf8::encode_utf8;

use crate::ip::dec_val;
use crate::ip::first_sep;
use crate::ip::is_dec_digit;
use crate::ip::lemma_first_sep;
use crate::ip::parse_ipv4_bytes;
use crate::ip::parse_ipv6_bytes;
use crate::ip::spec_parse_ipv4;
use crate::ip::spec_parse_ipv6;
use crate::ip::IpAddr;
use crate::socks5::SocketAddress;
use crate::text::str_eq;

verus! {

/// A port in text: one to five decimal digits, at most 65535.
pub open spec fn spec_parse_port(s: Seq<u8>) -> Option<u16> {
    if 1 <= s.len() <= 5 && (forall|j: int| 0 <= j < s.len() ==> is_dec_digit(#[trigger] s[j]))
        && dec_val(s) <= 65535 {
        Some(dec_val(s) as u16)
    } else {
        None
    }
}

/// A socket address in text: `a.b.c.d:port`, or `[v6]:port`.
pub open spec fn spec_parse_socket_addr(s: Seq<u8>) -> Option<SocketAddress> {
    if s.len() > 0 && s[0] == 91 {
        // bracketed IPv6
        let close = first_sep(s, 93);
        if close < s.len() && close + 1 < s.len() && s[close + 1] == 58 {
            let ip = spec_parse_ipv6(s.subrange(1, close));
            let port = spec_parse_port(s.subrange(close + 2, s.len() as int));
            match (ip, port) {
                (Some(v), Some(p)) => Some(SocketAddress { ip: IpAddr::V6(v), port: p }),
                _ => None,
            }
        } else {
            None
        }
    } else {
        let colon = first_sep(s, 58);
        if colon < s.len() {
            let ip = spec_parse_ipv4(s.subrange(0, colon));
            let port = spec_parse_port(s.subrange(colon + 1, s.len() as int));
            match (ip, port) {
                (Some(v), Some(p)) => Some(SocketAddress { ip: IpAddr::V4(v), port: p }),
                _ => None,
            }
        } else {
            None
        }
    }
}

/// The index of the first `b` in `v`, or the length when there is none.
fn find_byte(v: &[u8], b: u8) -> (i: usize)
    ensures
        i == first_sep(v@, b),
        i <= v@.len(),
{
    let n = v.len();
    let mut i: usize = 0;
    while i < n
        invariant
            i <= n,
            n == v@.len(),
            forall|j: int| 0 <= j < i ==> v@[j] != b,
        decreases n - i,
    {
        if v[i] == b {
            proof {
                lemma_first_sep(v@, b);
                if first_sep(v@, b) < i {
                    assert(v@[first_sep(v@, b)] == b);
                    assert(false);
                }
            }
            return i;
        }
        i = i + 1;
    }
    proof {
        lemma_first_sep(v@, b);
        if first_sep(v@, b) < n {
            assert(v@[first_sep(v@, b)] == b);
            assert(false);
        }
    }
    n
}

/// Parses a port number.
fn parse_port_bytes(p: &[u8]) -> (r: Option<u16>)
    ensures
        r == spec_parse_port(p@),
{
    let n = p.len();
    if n == 0 || n > 5 {
        return None;
    }
    let mut val: u32 = 0;
    let mut j: usize = 0;
    while j < n
        invariant
            j <= n,
            n == p@.len(),
            n <= 5,
            forall|t: int| 0 <= t < j ==> is_dec_digit(#[trigger] p@[t]),
            val == dec_val(p@.subrange(0, j as int)),
            j == 0 ==> val == 0,
            j == 1 ==> val <= 9,
            j == 2 ==> val <= 99,
            j == 3 ==> val <= 999,
            j == 4 ==> val <= 9999,
            j == 5 ==> val <= 99999,
        decreases n - j,
    {
        let b = p[j];
        if b < 48 || b > 57 {
            return None;
        }
        proof {
            assert(p@.subrange(0, j as int + 1).drop_last() =~= p@.subrange(0, j as int));
            assert(p@.subrange(0, j as int + 1).last() == p@[j as int]);
        }
        val = val * 10 + ((b - 48) as u32);
        j = j + 1;
    }
    proof {
        assert(p@.subrange(0, n as int) =~= p@);
    }
    if val > 65535 {
        return None;
    }
    Some(val as u16)
}

/// Parses `ip:port`, in IPv4 form or with a bracketed IPv6 address.
pub fn parse_socket_addr(s: &str) -> (r: Option<SocketAddress>)
    ensures
        r == spec_parse_socket_addr(s.spec_bytes()),
{
    let v = s.as_bytes();
    let n = v.len();
    if n > 0 && v[0] == 91 {
        let close = find_byte(v, 93);
        if close < n && close + 1 < n && v[close + 1] == 58 {
            proof {
                lemma_first_sep(v@, 93);
                if close == 0 {
                    assert(v@[0] == 93);
                    assert(false);
                }
            }
            let ip = parse_ipv6_bytes(&v[1..close]);
            let port = parse_port_bytes(&v[close + 2..n]);
            match (ip, port) {
                (Some(a), Some(p)) => Some(SocketAddress { ip: IpAddr::V6(a), port: p }),
                _ => None,
            }
        } else {
            None
        }
    } else {
        let colon = find_byte(v, 58);
        if colon < n {
            let ip = parse_ipv4_bytes(&v[0..colon]);
            let port = parse_port_bytes(&v[colon + 1..n]);
            match (ip, port) {
                (Some(a), Some(p)) => Some(SocketAddress { ip: IpAddr::V4(a), port: p }),
                _ => None,
            }
        } else {
            None
        }
    }
}

/// The per-address tracking settings of the configuration file.
#[derive(Debug, Clone)]
pub struct IpTrafficTrackingConfig {
    pub enabled: bool,
    pub max_tracked_ips: usize,
    pub output_file: Option<String>,
    pub persistence_file: Option<String>,
}

/// The chained-proxy settings of the configuration file.
#[derive(Debug, Clone)]
pub struct Socks5FileConfig {
    pub addr: String,
    pub username: Option<String>,
    pub password: Option<String>,
}

/// The logging settings of the configuration file.
#[derive(Debug, Clone)]
pub struct LogConfigFile {
    pub level: String,
    pub output: String,
    pub file_path: Option<String>,
    pub enable_rotation: bool,
    pub max_size_mb: u64,
    pub max_backups: usize,
    pub show_timestamp: bool,
    pub show_module: bool,
    pub use_color: bool,
}

/// Everything the configuration file holds that the engine reads.
#[derive(Debug, Clone)]
pub struct Config {
    pub listen_addr: String,
    pub whitelist: Vec<String>,
    pub socks5_whitelist: Vec<String>,
    pub ip_whitelist: Vec<String>,
    pub ip_traffic_tracking: Option<IpTrafficTrackingConfig>,
    pub socks5: Option<Socks5FileConfig>,
    pub log: Option<LogConfigFile>,
}

/// The first rule a configuration breaks.
#[derive(Debug, Clone, Copy, PartialEq, Eq, Structural)]
pub enum ConfigError {
    /// The listening address does not parse as `ip:port`.
    InvalidListenAddr,
    /// Both whitelists are empty; nothing could ever be admitted.
    EmptyWhitelists,
    /// The chained proxy's address does not parse as `ip:port`.
    InvalidSocks5Addr,
    /// A username without a password, or the other way round.
    Socks5CredsInconsistent,
    /// Tracking is on but no addresses may be tracked.
    TrackingCapacityZero,
    /// The log level is not one of the six names.
    InvalidLogLevel,
    /// The log output is not `stdout`, `file` or `both`.
    InvalidLogOutput,
    /// Rotation is on with a zero size bound.
    RotationSizeZero,
}

/// Whether the level text is one of the six exact names.
pub open spec fn spec_valid_level_text(l: Seq<char>) -> bool {
    l == "off"@ || l == "error"@ || l == "warn"@ || l == "info"@ || l == "debug"@ || l == "trace"@
}

/// Whether the output text is one of the three exact names.
pub open spec fn spec_valid_output_text(l: Seq<char>) -> bool {
    l == "stdout"@ || l == "file"@ || l == "both"@
}

/// The validation rules, in the order they are checked.
pub open spec fn spec_validate(c: Config) -> Result<(), ConfigError> {
    if spec_parse_socket_addr(encode_utf8(c.listen_addr@)) is None {
        Err(ConfigError::InvalidListenAddr)
    } else if c.whitelist@.len() == 0 && c.socks5_whitelist@.len() == 0 {
        Err(ConfigError::EmptyWhitelists)
    } else if c.socks5 matches Some(s) && spec_parse_socket_addr(encode_utf8(s.addr@)) is None {
        Err(ConfigError::InvalidSocks5Addr)
    } else if c.socks5 matches Some(s) && ((s.username is Some) != (s.password is Some)) {
        Err(ConfigError::Socks5CredsInconsistent)
    } else if c.ip_traffic_tracking matches Some(t) && t.enabled && t.max_tracked_ips == 0 {
        Err(ConfigError::TrackingCapacityZero)
    } else if c.log matches Some(l) && !spec_valid_level_text(l.level@) {
        Err(ConfigError::InvalidLogLevel)
    } else if c.log matches Some(l) && !spec_valid_output_text(l.output@) {
        Err(ConfigError::InvalidLogOutput)
    } else if c.log matches Some(l) && l.enable_rotation && l.max_size_mb == 0 {
        Err(ConfigError::RotationSizeZero)
    } else {
        Ok(())
    }
}

/// Checks a configuration against every rule of [`spec_validate`] and
/// names the first broken one.
pub fn validate_config(config: &Config) -> (r: Result<(), ConfigError>)
    ensures
        r == spec_validate(*config),
{
    if parse_socket_addr(config.listen_addr.as_str()).is_none() {
        return Err(ConfigError::InvalidListenAddr);
    }
    if config.whitelist.len() == 0 && config.socks5_whitelist.len() == 0 {
        return Err(ConfigError::EmptyWhitelists);
    }
    match &config.socks5 {
        Some(s) => {
            if parse_socket_addr(s.addr.as_str()).is_none() {
                return Err(ConfigError::InvalidSocks5Addr);
            }
            if s.username.is_some() != s.password.is_some() {
                return Err(ConfigError::Socks5CredsInconsistent);
            }
        },
        None => {},
    }
    match &config.ip_traffic_tracking {
        Some(t) => {
            if t.enabled && t.max_tracked_ips == 0 {
                return Err(ConfigError::TrackingCapacityZero);
            }
        },
        None => {},
    }
    match &config.log {
        Some(l) => {
            let lv = l.level.as_str();
            let ok_level = str_eq(lv, "off") || str_eq(lv, "error") || str_eq(lv, "warn")
                || str_eq(lv, "info") || str_eq(lv, "debug") || str_eq(lv, "trace");
            if !ok_level {
                return Err(ConfigError::InvalidLogLevel);
            }
            let ov = l.output.as_str();
            let ok_output = str_eq(ov, "stdout") || str_eq(ov, "file") || str_eq(ov, "both");
            if !ok_output {
                return Err(ConfigError::InvalidLogOutput);
            }
            if l.enable_rotation && l.max_size_mb == 0 {
                return Err(ConfigError::RotationSizeZero);
            }
        },
        None => {},
    }
    Ok(())
}

} // verus!
