//! Membership of a source address in a whitelist of addresses and CIDR
//! ranges.
//!
//! A pattern is either a literal address or `<addr>/<prefix>`. A CIDR
//! range keeps the network bits and a mask; an address belongs to it when
//! masking leaves the network. Patterns that do not parse, and CIDR
//! prefixes out of range, are dropped. An empty matcher means the feature
//! is off; the engine then admits every address.

use vstd::prelude::*;
use vstd::utf8::encode_utf8;

use crate::ip::first_sep;
use crate::ip::lemma_first_sep;
use crate::ip::dec_val;
use crate::ip::is_dec_digit;
use crate::ip::spec_parse_ip;
use crate::ip::spec_parse_ipv4;
use crate::ip::spec_parse_ipv6;
use crate::ip::spec_split;
use crate::ip::parse_ipv4_bytes;
use crate::ip::parse_ipv6_bytes;
use crate::ip::split_bytes;
use crate::ip::IpAddr;

verus! {

/// ASCII whitespace, as trimming understands it.
pub open spec fn is_ws(b: u8) -> bool {
    b == 32 || b == 9 || b == 10 || b == 13
}

/// `s` without its leading whitespace.
pub open spec fn drop_leading_ws(s: Seq<u8>) -> Seq<u8>
    decreases s.len(),
{
    if s.len() > 0 && is_ws(s[0]) {
        drop_leading_ws(s.drop_first())
    } else {
        s
    }
}

/// `s` without its trailing whitespace.
pub open spec fn drop_trailing_ws(s: Seq<u8>) -> Seq<u8>
    decreases s.len(),
{
    if s.len() > 0 && is_ws(s.last()) {
        drop_trailing_ws(s.drop_last())
    } else {
        s
    }
}

/// `s` without leading and trailing whitespace.
pub open spec fn spec_trim(s: Seq<u8>) -> Seq<u8> {
    drop_trailing_ws(drop_leading_ws(s))
}

proof fn lemma_drop_leading_ws(s: Seq<u8>, a: int)
    requires
        0 <= a <= s.len(),
        forall|j: int| 0 <= j < a ==> is_ws(#[trigger] s[j]),
        a < s.len() ==> !is_ws(s[a]),
    ensures
        drop_leading_ws(s) == s.subrange(a, s.len() as int),
    decreases a,
{
    if a == 0 {
        if s.len() > 0 && is_ws(s[0]) {
            assert(false);
        }
        assert(s.subrange(0, s.len() as int) =~= s);
    } else {
        assert(is_ws(s[0]));
        let d = s.drop_first();
        assert(forall|j: int| 0 <= j < a - 1 ==> is_ws(#[trigger] d[j]));
        lemma_drop_leading_ws(d, a - 1);
        assert(d.subrange(a - 1, d.len() as int) =~= s.subrange(a, s.len() as int));
    }
}

proof fn lemma_drop_trailing_ws(s: Seq<u8>, b: int)
    requires
        0 <= b <= s.len(),
        forall|j: int| b <= j < s.len() ==> is_ws(#[trigger] s[j]),
        b > 0 ==> !is_ws(s[b - 1]),
    ensures
        drop_trailing_ws(s) == s.subrange(0, b),
    decreases s.len() - b,
{
    if b == s.len() {
        if s.len() > 0 && is_ws(s.last()) {
            assert(false);
        }
        assert(s.subrange(0, s.len() as int) =~= s);
    } else {
        assert(is_ws(s.last()));
        let d = s.drop_last();
        assert(forall|j: int| b <= j < d.len() ==> is_ws(#[trigger] d[j]));
        lemma_drop_trailing_ws(d, b);
        assert(d.subrange(0, b) =~= s.subrange(0, b));
    }
}

/// The first non-whitespace position, or the length.
fn find_first_non_ws(v: &[u8]) -> (a: usize)
    ensures
        a <= v@.len(),
        forall|j: int| 0 <= j < a ==> is_ws(#[trigger] v@[j]),
        a < v@.len() ==> !is_ws(v@[a as int]),
{
    let n = v.len();
    let mut a: usize = 0;
    while a < n
        invariant
            a <= n,
            n == v@.len(),
            forall|j: int| 0 <= j < a ==> is_ws(#[trigger] v@[j]),
        decreases n - a,
    {
        let b = v[a];
        if !(b == 32 || b == 9 || b == 10 || b == 13) {
            return a;
        }
        a = a + 1;
    }
    a
}

/// One past the last non-whitespace position at or after `a`.
fn find_end_non_ws(v: &[u8], a: usize) -> (b: usize)
    requires
        a < v@.len(),
        !is_ws(v@[a as int]),
    ensures
        a < b <= v@.len(),
        forall|j: int| b <= j < v@.len() ==> is_ws(#[trigger] v@[j]),
        !is_ws(v@[b - 1]),
{
    let n = v.len();
    let mut b: usize = n;
    while b > a
        invariant
            a <= b <= n,
            n == v@.len(),
            !is_ws(v@[a as int]),
            forall|j: int| b <= j < n ==> is_ws(#[trigger] v@[j]),
        decreases b,
    {
        let c = v[b - 1];
        if !(c == 32 || c == 9 || c == 10 || c == 13) {
            return b;
        }
        b = b - 1;
    }
    proof {
        assert(is_ws(v@[a as int]));
        assert(false);
    }
    n
}

/// Copies `v` without its leading and trailing whitespace.
fn trim_bytes(v: &[u8]) -> (t: Vec<u8>)
    ensures
        t@ == spec_trim(v@),
{
    let n = v.len();
    let a = find_first_non_ws(v);
    proof {
        lemma_drop_leading_ws(v@, a as int);
    }
    if a == n {
        proof {
            assert(v@.subrange(n as int, n as int) =~= Seq::<u8>::empty());
            assert(drop_trailing_ws(Seq::<u8>::empty()) == Seq::<u8>::empty());
        }
        return Vec::new();
    }
    let ghost lead = v@.subrange(a as int, n as int);
    let b = find_end_non_ws(v, a);
    proof {
        assert(forall|j: int|
            b - a <= j < lead.len() ==> is_ws(#[trigger] lead[j]));
        assert(lead[b - a - 1] == v@[b as int - 1]);
        lemma_drop_trailing_ws(lead, b - a);
        assert(lead.subrange(0, b - a) =~= v@.subrange(a as int, b as int));
    }
    let t = vstd::slice::slice_to_vec(&v[a..b]);
    t
}

/// An IPv4 network: the network bits under the mask of a prefix.
#[derive(Debug, Clone, Copy)]
pub struct Ipv4Net {
    pub network: u32,
    pub mask: u32,
    pub prefix: u8,
}

/// An IPv6 network.
#[derive(Debug, Clone, Copy)]
pub struct Ipv6Net {
    pub network: u128,
    pub mask: u128,
    pub prefix: u8,
}

/// The IPv4 mask of a prefix: the top `p` bits set.
pub open spec fn mask4(p: int) -> u32 {
    if p <= 0 {
        0u32
    } else {
        (!0u32) << ((32 - p) as u32)
    }
}

/// The IPv6 mask of a prefix.
pub open spec fn mask6(p: int) -> u128 {
    if p <= 0 {
        0u128
    } else {
        (!0u128) << ((128 - p) as u128)
    }
}

/// The network derived from an IPv4 address and a prefix.
pub open spec fn spec_net4(ip: u32, p: int) -> Ipv4Net {
    Ipv4Net { network: ip & mask4(p), mask: mask4(p), prefix: p as u8 }
}

/// The network derived from an IPv6 address and a prefix.
pub open spec fn spec_net6(ip: u128, p: int) -> Ipv6Net {
    Ipv6Net { network: ip & mask6(p), mask: mask6(p), prefix: p as u8 }
}

/// Whether an IPv4 address lies in a network.
pub open spec fn v4_in_net(ip: u32, net: Ipv4Net) -> bool {
    ip & net.mask == net.network
}

/// Whether an IPv6 address lies in a network.
pub open spec fn v6_in_net(ip: u128, net: Ipv6Net) -> bool {
    ip & net.mask == net.network
}

/// A prefix length in text: one to three decimal digits, value at most
/// 255.
pub open spec fn valid_prefix_text(s: Seq<u8>) -> bool {
    &&& 1 <= s.len() <= 3
    &&& (forall|j: int| 0 <= j < s.len() ==> is_dec_digit(#[trigger] s[j]))
    &&& dec_val(s) <= 255
}

/// Whether the trimmed pattern is a CIDR (holds a slash).
pub open spec fn is_cidr_pattern(t: Seq<u8>) -> bool {
    first_sep(t, 47) < t.len()
}

/// The literal address a pattern contributes, if any.
pub open spec fn pattern_exact(p: Seq<u8>) -> Option<IpAddr> {
    let t = spec_trim(p);
    if t.len() == 0 || is_cidr_pattern(t) {
        None
    } else {
        spec_parse_ip(t)
    }
}

/// The IPv4 network a CIDR pattern contributes, if any.
pub open spec fn pattern_v4net(p: Seq<u8>) -> Option<Ipv4Net> {
    let t = spec_trim(p);
    if t.len() == 0 || !is_cidr_pattern(t) {
        None
    } else {
        let parts = spec_split(t, 47);
        if parts.len() != 2 {
            None
        } else {
            let ip_s = spec_trim(parts[0]);
            let pf_s = spec_trim(parts[1]);
            if !valid_prefix_text(pf_s) {
                None
            } else {
                match spec_parse_ipv4(ip_s) {
                    Some(ip) => if dec_val(pf_s) <= 32 {
                        Some(spec_net4(ip, dec_val(pf_s)))
                    } else {
                        None
                    },
                    None => None,
                }
            }
        }
    }
}

/// The IPv6 network a CIDR pattern contributes, if any. An address that
/// reads as IPv4 is claimed by [`pattern_v4net`] and never lands here.
pub open spec fn pattern_v6net(p: Seq<u8>) -> Option<Ipv6Net> {
    let t = spec_trim(p);
    if t.len() == 0 || !is_cidr_pattern(t) {
        None
    } else {
        let parts = spec_split(t, 47);
        if parts.len() != 2 {
            None
        } else {
            let ip_s = spec_trim(parts[0]);
            let pf_s = spec_trim(parts[1]);
            if !valid_prefix_text(pf_s) || spec_parse_ipv4(ip_s) is Some {
                None
            } else {
                match spec_parse_ipv6(ip_s) {
                    Some(ip) => if dec_val(pf_s) <= 128 {
                        Some(spec_net6(ip, dec_val(pf_s)))
                    } else {
                        None
                    },
                    None => None,
                }
            }
        }
    }
}

/// The literal addresses of a pattern list, in order.
pub open spec fn spec_exact_ips(ds: Seq<Seq<char>>) -> Seq<IpAddr>
    decreases ds.len(),
{
    if ds.len() == 0 {
        Seq::empty()
    } else {
        let rest = spec_exact_ips(ds.drop_last());
        match pattern_exact(encode_utf8(ds.last())) {
            Some(ip) => rest.push(ip),
            None => rest,
        }
    }
}

/// The IPv4 networks of a pattern list, in order.
pub open spec fn spec_v4nets(ds: Seq<Seq<char>>) -> Seq<Ipv4Net>
    decreases ds.len(),
{
    if ds.len() == 0 {
        Seq::empty()
    } else {
        let rest = spec_v4nets(ds.drop_last());
        match pattern_v4net(encode_utf8(ds.last())) {
            Some(net) => rest.push(net),
            None => rest,
        }
    }
}

/// The IPv6 networks of a pattern list, in order.
pub open spec fn spec_v6nets(ds: Seq<Seq<char>>) -> Seq<Ipv6Net>
    decreases ds.len(),
{
    if ds.len() == 0 {
        Seq::empty()
    } else {
        let rest = spec_v6nets(ds.drop_last());
        match pattern_v6net(encode_utf8(ds.last())) {
            Some(net) => rest.push(net),
            None => rest,
        }
    }
}

/// Decides whether a source address is covered by the IP whitelist.
#[derive(Debug, Clone)]
pub struct IpMatcher {
    exact: Vec<IpAddr>,
    v4_networks: Vec<Ipv4Net>,
    v6_networks: Vec<Ipv6Net>,
}

impl IpMatcher {
    /// The literal addresses.
    pub closed spec fn exact_view(self) -> Seq<IpAddr> {
        self.exact@
    }

    /// The IPv4 networks.
    pub closed spec fn v4_view(self) -> Seq<Ipv4Net> {
        self.v4_networks@
    }

    /// The IPv6 networks.
    pub closed spec fn v6_view(self) -> Seq<Ipv6Net> {
        self.v6_networks@
    }

    /// How a matcher relates to the pattern list it was built from.
    pub open spec fn built_from(self, ds: Seq<Seq<char>>) -> bool {
        &&& self.exact_view() == spec_exact_ips(ds)
        &&& self.v4_view() == spec_v4nets(ds)
        &&& self.v6_view() == spec_v6nets(ds)
    }

    /// Whether `ip` is covered: a literal hit, or membership in a network
    /// of its family.
    pub open spec fn spec_matches(self, ip: IpAddr) -> bool {
        self.exact_view().contains(ip) || (match ip {
            IpAddr::V4(v) => exists|i: int|
                0 <= i < self.v4_view().len() && v4_in_net(v, #[trigger] self.v4_view()[i]),
            IpAddr::V6(v) => exists|i: int|
                0 <= i < self.v6_view().len() && v6_in_net(v, #[trigger] self.v6_view()[i]),
        })
    }

    /// Builds a matcher from patterns: literal addresses and
    /// `<addr>/<prefix>` ranges, each trimmed first; what does not parse is
    /// dropped.
    pub fn new(ip_patterns: Vec<String>) -> (m: IpMatcher)
        ensures
            m.built_from(ip_patterns.deep_view()),
    {
        let ghost ds = ip_patterns.deep_view();
        let mut exact: Vec<IpAddr> = Vec::new();
        let mut v4_networks: Vec<Ipv4Net> = Vec::new();
        let mut v6_networks: Vec<Ipv6Net> = Vec::new();
        let n = ip_patterns.len();
        let mut k: usize = 0;
        proof {
            assert(ds.subrange(0, 0) =~= Seq::<Seq<char>>::empty());
        }
        while k < n
            invariant
                k <= n,
                n == ip_patterns.len(),
                ds == ip_patterns.deep_view(),
                exact@ == spec_exact_ips(ds.subrange(0, k as int)),
                v4_networks@ == spec_v4nets(ds.subrange(0, k as int)),
                v6_networks@ == spec_v6nets(ds.subrange(0, k as int)),
            decreases n - k,
        {
            let ghost prefix = ds.subrange(0, k as int);
            let ghost pb = encode_utf8(ds[k as int]);
            let raw = ip_patterns[k].as_str().as_bytes();
            proof {
                assert(raw@ == pb);
            }
            let t = trim_bytes(raw);
            let tn = t.len();
            let slash = find_slash(&t);
            if tn == 0 {
                // blank entry: contributes nothing
            } else if slash == tn {
                // literal address
                match parse_ipv4_bytes(t.as_slice()) {
                    Some(v) => {
                        assert(pattern_exact(pb) == Some(IpAddr::V4(v)));
                        exact.push(IpAddr::V4(v));
                    },
                    None => {
                        match parse_ipv6_bytes(t.as_slice()) {
                            Some(v) => {
                                assert(pattern_exact(pb) == Some(IpAddr::V6(v)));
                                exact.push(IpAddr::V6(v));
                            },
                            None => {
                                assert(pattern_exact(pb) is None);
                            },
                        }
                    },
                }
            } else {
                // CIDR range
                let parts = split_bytes(t.as_slice(), 47);
                if parts.len() == 2 {
                    proof {
                        assert(parts.deep_view()[0] == parts@[0]@);
                        assert(parts.deep_view()[1] == parts@[1]@);
                    }
                    let ip_s = trim_bytes(parts[0].as_slice());
                    let pf_s = trim_bytes(parts[1].as_slice());
                    proof {
                        let ts = spec_trim(pb);
                        assert(ts == t@);
                        assert(ts.len() != 0);
                        assert(is_cidr_pattern(ts));
                        let sparts = spec_split(ts, 47);
                        assert(sparts.len() == 2);
                        assert(ip_s@ == spec_trim(sparts[0]));
                        assert(pf_s@ == spec_trim(sparts[1]));
                    }
                    match parse_prefix(&pf_s) {
                        Some(pf) => {
                            match parse_ipv4_bytes(ip_s.as_slice()) {
                                Some(ip) => {
                                    if pf <= 32 {
                                        let mask = if pf == 0 {
                                            0u32
                                        } else {
                                            !0u32 << ((32 - pf) as u32)
                                        };
                                        assert(mask == mask4(pf as int));
                                        assert(pattern_v4net(pb) == Some(spec_net4(ip, pf as int)));
                                        v4_networks.push(
                                            Ipv4Net { network: ip & mask, mask, prefix: pf },
                                        );
                                    }
                                },
                                None => {
                                    match parse_ipv6_bytes(ip_s.as_slice()) {
                                        Some(ip) => {
                                            if pf <= 128 {
                                                let mask = if pf == 0 {
                                                    0u128
                                                } else {
                                                    !0u128 << ((128 - pf) as u128)
                                                };
                                                assert(mask == mask6(pf as int));
                                                assert(pattern_v6net(pb) == Some(spec_net6(ip, pf as int)));
                                                v6_networks.push(
                                                    Ipv6Net {
                                                        network: ip & mask,
                                                        mask,
                                                        prefix: pf,
                                                    },
                                                );
                                            }
                                        },
                                        None => {},
                                    }
                                },
                            }
                        },
                        None => {},
                    }
                }
            }
            proof {
                let next = ds.subrange(0, k as int + 1);
                assert(next.drop_last() =~= prefix);
                assert(next.last() == ds[k as int]);
                assert(exact@ =~= spec_exact_ips(next));
                assert(v4_networks@ =~= spec_v4nets(next));
                assert(v6_networks@ =~= spec_v6nets(next));
            }
            k = k + 1;
        }
        proof {
            assert(ds.subrange(0, n as int) =~= ds);
        }
        IpMatcher { exact, v4_networks, v6_networks }
    }

    /// Whether `ip` is covered by the whitelist.
    pub fn matches(&self, ip: IpAddr) -> (b: bool)
        ensures
            b == self.spec_matches(ip),
    {
        let ne = self.exact.len();
        let mut i: usize = 0;
        while i < ne
            invariant
                i <= ne,
                ne == self.exact.len(),
                forall|j: int| 0 <= j < i ==> self.exact_view()[j] != ip,
            decreases ne - i,
        {
            if self.exact[i] == ip {
                assert(self.exact_view().contains(ip));
                return true;
            }
            i = i + 1;
        }
        assert(!self.exact_view().contains(ip));
        match ip {
            IpAddr::V4(v) => {
                let n4 = self.v4_networks.len();
                let mut j: usize = 0;
                while j < n4
                    invariant
                        j <= n4,
                        n4 == self.v4_networks.len(),
                        !self.exact_view().contains(ip),
                        ip == IpAddr::V4(v),
                        forall|t: int| 0 <= t < j ==> !v4_in_net(v, #[trigger] self.v4_view()[t]),
                    decreases n4 - j,
                {
                    let net = self.v4_networks[j];
                    if v & net.mask == net.network {
                        assert(v4_in_net(v, self.v4_view()[j as int]));
                        return true;
                    }
                    j = j + 1;
                }
                false
            },
            IpAddr::V6(v) => {
                let n6 = self.v6_networks.len();
                let mut j: usize = 0;
                while j < n6
                    invariant
                        j <= n6,
                        n6 == self.v6_networks.len(),
                        !self.exact_view().contains(ip),
                        ip == IpAddr::V6(v),
                        forall|t: int| 0 <= t < j ==> !v6_in_net(v, #[trigger] self.v6_view()[t]),
                    decreases n6 - j,
                {
                    let net = self.v6_networks[j];
                    if v & net.mask == net.network {
                        assert(v6_in_net(v, self.v6_view()[j as int]));
                        return true;
                    }
                    j = j + 1;
                }
                false
            },
        }
    }

    /// Whether nothing was configured; the engine then skips the check.
    pub fn is_empty(&self) -> (b: bool)
        ensures
            b == (self.exact_view().len() == 0 && self.v4_view().len() == 0 && self.v6_view().len()
                == 0),
    {
        self.exact.len() == 0 && self.v4_networks.len() == 0 && self.v6_networks.len() == 0
    }
}

/// The index of the first slash, or the length when there is none.
fn find_slash(t: &Vec<u8>) -> (s: usize)
    ensures
        s == first_sep(t@, 47),
        s <= t@.len(),
{
    let n = t.len();
    let mut i: usize = 0;
    while i < n
        invariant
            i <= n,
            n == t@.len(),
            forall|j: int| 0 <= j < i ==> t@[j] != 47,
        decreases n - i,
    {
        if t[i] == 47 {
            proof {
                lemma_first_sep(t@, 47);
                if first_sep(t@, 47) < i {
                    assert(t@[first_sep(t@, 47)] == 47);
                    assert(false);
                }
            }
            return i;
        }
        i = i + 1;
    }
    proof {
        lemma_first_sep(t@, 47);
        if first_sep(t@, 47) < n {
            assert(t@[first_sep(t@, 47)] == 47);
            assert(false);
        }
    }
    n
}

/// Parses a prefix length: one to three decimal digits up to 255.
fn parse_prefix(p: &Vec<u8>) -> (r: Option<u8>)
    ensures
        r is Some <==> valid_prefix_text(p@),
        r matches Some(o) ==> o == dec_val(p@),
{
    let n = p.len();
    if n == 0 || n > 3 {
        return None;
    }
    let mut val: u32 = 0;
    let mut j: usize = 0;
    while j < n
        invariant
            j <= n,
            n == p@.len(),
            n <= 3,
            forall|t: int| 0 <= t < j ==> is_dec_digit(#[trigger] p@[t]),
            val == dec_val(p@.subrange(0, j as int)),
            j == 0 ==> val == 0,
            j == 1 ==> val <= 9,
            j == 2 ==> val <= 99,
            j == 3 ==> val <= 999,
        decreases n - j,
    {
        let b = p[j];
        if b < 48 || b > 57 {
            return None;
        }
        proof {
            assert(p@.subrange(0, j as int + 1).drop_last() =~= p@.subrange(0, j as int));
            assert(p@.subrange(0, j as int + 1).last() == p@[j as int]);
        }
        val = val * 10 + ((b - 48) as u32);
        j = j + 1;
    }
    proof {
        assert(p@.subrange(0, n as int) =~= p@);
    }
    if val > 255 {
        return None;
    }
    Some(val as u8)
}

/// Masking with a prefix mask compares exactly the top `p` bits: an IPv4
/// network built from `x/p` holds exactly the addresses whose top `p` bits
/// equal those of `x`.
pub proof fn lemma_v4_cidr_top_bits(x: u32, p: u32, ip: u32)
    requires
        p <= 32,
    ensures
        v4_in_net(ip, spec_net4(x, p as int)) <==> (ip >> ((32 - p) as u32)) == (x >> ((32 - p)
            as u32)),
{
    if p == 0 {
        assert(mask4(0) == 0);
        assert(ip & 0u32 == 0u32) by (bit_vector);
        assert(x & 0u32 == 0u32) by (bit_vector);
        assert(ip >> 32u32 == 0u32) by (bit_vector);
        assert(x >> 32u32 == 0u32) by (bit_vector);
    } else {
        let m = mask4(p as int);
        assert(m == (!0u32) << ((32 - p) as u32));
        assert(((ip & m) == (x & m)) <==> ((ip >> ((32 - p) as u32)) == (x >> ((32 - p) as u32))))
            by (bit_vector)
            requires
                1 <= p <= 32,
                m == (!0u32) << ((32 - p) as u32),
        ;
    }
}

/// The IPv6 analogue of [`lemma_v4_cidr_top_bits`].
#[verifier::rlimit(100)]
pub proof fn lemma_v6_cidr_top_bits(x: u128, p: u128, ip: u128)
    requires
        p <= 128,
    ensures
        v6_in_net(ip, spec_net6(x, p as int)) <==> (ip >> ((128 - p) as u128)) == (x >> ((128 - p)
            as u128)),
{
    if p == 0 {
        assert(mask6(0) == 0);
        assert(ip & 0u128 == 0u128) by (bit_vector);
        assert(x & 0u128 == 0u128) by (bit_vector);
        assert(ip >> 128u128 == 0u128) by (bit_vector);
        assert(x >> 128u128 == 0u128) by (bit_vector);
    } else {
        let m = mask6(p as int);
        assert(m == (!0u128) << ((128 - p) as u128));
        assert(((ip & m) == (x & m)) <==> ((ip >> ((128 - p) as u128)) == (x >> ((128 - p)
            as u128)))) by (bit_vector)
            requires
                1 <= p <= 128,
                m == (!0u128) << ((128 - p) as u128),
        ;
    }
}

/// A matcher built from one IPv6 CIDR pattern accepts exactly the
/// addresses whose top `p` bits equal those of the pattern's address.
pub proof fn lemma_v6_cidr_matcher_exact_set(
    m: IpMatcher,
    pat: Seq<char>,
    x: u128,
    p: u128,
    ip: u128,
)
    requires
        m.built_from(seq![pat]),
        p <= 128,
        pattern_v6net(encode_utf8(pat)) == Some(spec_net6(x, p as int)),
    ensures
        m.spec_matches(IpAddr::V6(ip)) <==> (ip >> ((128 - p) as u128)) == (x >> ((128 - p)
            as u128)),
{
    let ds = seq![pat];
    assert(ds.drop_last() =~= Seq::<Seq<char>>::empty());
    assert(ds.last() == pat);
    assert(spec_exact_ips(Seq::<Seq<char>>::empty()) =~= Seq::<IpAddr>::empty());
    assert(spec_v4nets(Seq::<Seq<char>>::empty()) =~= Seq::<Ipv4Net>::empty());
    assert(spec_v6nets(Seq::<Seq<char>>::empty()) =~= Seq::<Ipv6Net>::empty());
    assert(pattern_exact(encode_utf8(pat)) is None);
    assert(pattern_v4net(encode_utf8(pat)) is None);
    assert(m.exact_view() =~= Seq::<IpAddr>::empty());
    assert(m.v6_view() =~= seq![spec_net6(x, p as int)]);
    lemma_v6_cidr_top_bits(x, p, ip);
    if m.spec_matches(IpAddr::V6(ip)) {
        let i = choose|i: int|
            0 <= i < m.v6_view().len() && v6_in_net(ip, #[trigger] m.v6_view()[i]);
        assert(m.v6_view()[i] == spec_net6(x, p as int));
    }
    if v6_in_net(ip, spec_net6(x, p as int)) {
        assert(v6_in_net(ip, m.v6_view()[0]));
    }
}

/// A matcher built from one IPv4 CIDR pattern accepts exactly the
/// addresses whose top `p` bits equal those of the pattern's address.
pub proof fn lemma_v4_cidr_matcher_exact_set(
    m: IpMatcher,
    pat: Seq<char>,
    x: u32,
    p: u32,
    ip: u32,
)
    requires
        m.built_from(seq![pat]),
        p <= 32,
        pattern_v4net(encode_utf8(pat)) == Some(spec_net4(x, p as int)),
    ensures
        m.spec_matches(IpAddr::V4(ip)) <==> (ip >> ((32 - p) as u32)) == (x >> ((32 - p) as u32)),
{
    let ds = seq![pat];
    assert(ds.drop_last() =~= Seq::<Seq<char>>::empty());
    assert(ds.last() == pat);
    assert(spec_exact_ips(Seq::<Seq<char>>::empty()) =~= Seq::<IpAddr>::empty());
    assert(spec_v4nets(Seq::<Seq<char>>::empty()) =~= Seq::<Ipv4Net>::empty());
    assert(spec_v6nets(Seq::<Seq<char>>::empty()) =~= Seq::<Ipv6Net>::empty());
    assert(pattern_exact(encode_utf8(pat)) is None);
    assert(pattern_v6net(encode_utf8(pat)) is None);
    assert(m.exact_view() =~= Seq::<IpAddr>::empty());
    assert(m.v4_view() =~= seq![spec_net4(x, p as int)]);
    lemma_v4_cidr_top_bits(x, p, ip);
    if m.spec_matches(IpAddr::V4(ip)) {
        let i = choose|i: int|
            0 <= i < m.v4_view().len() && v4_in_net(ip, #[trigger] m.v4_view()[i]);
        assert(m.v4_view()[i] == spec_net4(x, p as int));
    }
    if v4_in_net(ip, spec_net4(x, p as int)) {
        assert(v4_in_net(ip, m.v4_view()[0]));
    }
}

} // verus!
