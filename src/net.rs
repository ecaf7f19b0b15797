//! IP addresses and CIDR blocks as plain integers.
use vstd::prelude::*;

use crate::text::has_suffix;

verus! {

/// An IPv4 or IPv6 address, held as its big-endian integer value.
#[derive(Clone, Copy, Debug, PartialEq, Eq, Structural)]
pub enum IpAddress {
    V4(u32),
    V6(u128),
}

/// A CIDR block: an address and the number of leading bits that count.
#[derive(Clone, Copy, Debug, PartialEq, Eq, Structural)]
pub struct IpNetwork {
    pub addr: IpAddress,
    pub prefix_len: u8,
}

impl IpNetwork {
    /// The prefix fits the address family.
    pub open spec fn wf(&self) -> bool {
        match self.addr {
            IpAddress::V4(_) => self.prefix_len <= 32,
            IpAddress::V6(_) => self.prefix_len <= 128,
        }
    }

    /// The address lies in the block: same family, same leading
    /// `prefix_len` bits.
    pub open spec fn contains_spec(&self, ip: IpAddress) -> bool {
        match (self.addr, ip) {
            (IpAddress::V4(n), IpAddress::V4(a)) => self.prefix_len == 0 || (self.prefix_len <= 32
                && n >> ((32 - self.prefix_len) as u32) == a >> ((32 - self.prefix_len) as u32)),
            (IpAddress::V6(n), IpAddress::V6(a)) => self.prefix_len == 0 || (self.prefix_len <= 128
                && n >> ((128 - self.prefix_len) as u32) == a >> ((128 - self.prefix_len) as u32)),
            _ => false,
        }
    }

    pub fn contains(&self, ip: &IpAddress) -> (r: bool)
        ensures
            r == self.contains_spec(*ip),
    {
        match (self.addr, *ip) {
            (IpAddress::V4(n), IpAddress::V4(a)) => {
                if self.prefix_len == 0 {
                    true
                } else if self.prefix_len > 32 {
                    false
                } else {
                    let shift: u32 = (32 - self.prefix_len) as u32;
                    n >> shift == a >> shift
                }
            },
            (IpAddress::V6(n), IpAddress::V6(a)) => {
                if self.prefix_len == 0 {
                    true
                } else if self.prefix_len > 128 {
                    false
                } else {
                    let shift: u32 = (128 - self.prefix_len) as u32;
                    n >> shift == a >> shift
                }
            },
            _ => false,
        }
    }
}

/// What `ipnet` parses a CIDR text into, when it accepts it.
pub uninterp spec fn cidr_text_value(s: Seq<char>) -> Option<IpNetwork>;

/// What `Ipv4Addr`'s text form denotes, when the text is one.
pub uninterp spec fn ipv4_text_value(s: Seq<char>) -> Option<u32>;

/// What `Ipv6Addr`'s text form denotes, when the text is one.
pub uninterp spec fn ipv6_text_value(s: Seq<char>) -> Option<u128>;

/// Relies on `<ipnet::IpNet as FromStr>::from_str`: the result depends on the
/// text alone, and the prefix of a parsed block fits its family.
#[verifier::external_body]
fn parse_ipnet(s: &str) -> (r: Option<IpNetwork>)
    ensures
        r == cidr_text_value(s@),
        r matches Some(n) ==> n.wf(),
{
    match s.parse::<ipnet::IpNet>() {
        Ok(ipnet::IpNet::V4(n)) => Some(
            IpNetwork { addr: IpAddress::V4(u32::from(n.addr())), prefix_len: n.prefix_len() },
        ),
        Ok(ipnet::IpNet::V6(n)) => Some(
            IpNetwork { addr: IpAddress::V6(u128::from(n.addr())), prefix_len: n.prefix_len() },
        ),
        Err(_) => None,
    }
}

/// Relies on `<hickory_proto::rr::rdata::A as FromStr>::from_str`, which
/// reads dotted-quad IPv4 text.
#[verifier::external_body]
fn parse_ipv4_text(s: &str) -> (r: Option<u32>)
    ensures
        r == ipv4_text_value(s@),
{
    match <hickory_proto::rr::rdata::A as std::str::FromStr>::from_str(s) {
        Ok(a) => Some(u32::from(a.0)),
        Err(_) => None,
    }
}

/// Relies on `<hickory_proto::rr::rdata::AAAA as FromStr>::from_str`, which
/// reads IPv6 text.
#[verifier::external_body]
fn parse_ipv6_text(s: &str) -> (r: Option<u128>)
    ensures
        r == ipv6_text_value(s@),
{
    match <hickory_proto::rr::rdata::AAAA as std::str::FromStr>::from_str(s) {
        Ok(a) => Some(u128::from(a.0)),
        Err(_) => None,
    }
}

/// Parses a CIDR block such as `10.0.0.0/8`.
pub fn parse_cidr(s: &str) -> (r: Option<IpNetwork>)
    ensures
        r == cidr_text_value(s@),
        r matches Some(n) ==> n.wf(),
{
    parse_ipnet(s)
}

/// The address a text denotes: IPv4 text first, then IPv6 text.
pub open spec fn ip_text_value(s: Seq<char>) -> Option<IpAddress> {
    match ipv4_text_value(s) {
        Some(v4) => Some(IpAddress::V4(v4)),
        None => match ipv6_text_value(s) {
            Some(v6) => Some(IpAddress::V6(v6)),
            None => None,
        },
    }
}

/// Parses an IPv4 or IPv6 address.
pub fn parse_ip(s: &str) -> (r: Option<IpAddress>)
    ensures
        r == ip_text_value(s@),
{
    match parse_ipv4_text(s) {
        Some(v4) => Some(IpAddress::V4(v4)),
        None => match parse_ipv6_text(s) {
            Some(v6) => Some(IpAddress::V6(v6)),
            None => None,
        },
    }
}

/// `d` is an ASCII digit.
pub open spec fn is_digit(d: char) -> bool {
    '0' <= d && d <= '9'
}

/// A decimal port: one to five digits, value at most 65535.
pub open spec fn port_text_ok(p: Seq<char>) -> bool {
    1 <= p.len() <= 5 && (forall|i: int| 0 <= i < p.len() ==> is_digit(#[trigger] p[i]))
        && decimal_value(p) <= 65535
}

pub open spec fn decimal_value(p: Seq<char>) -> nat
    decreases p.len(),
{
    if p.len() == 0 {
        0
    } else {
        decimal_value(p.drop_last()) * 10 + ((p.last() as u32) - ('0' as u32)) as nat
    }
}

/// Index of the last `:` in `s`, or -1.
pub open spec fn last_colon(s: Seq<char>, end: int) -> int
    decreases end,
{
    if end <= 0 {
        -1
    } else if s[end - 1] == ':' {
        end - 1
    } else {
        last_colon(s, end - 1)
    }
}

/// The host of a `host:port` text whose port is decimal, with the brackets
/// of an IPv6 host removed.
pub open spec fn socket_host(s: Seq<char>) -> Option<Seq<char>> {
    let c = last_colon(s, s.len() as int);
    if c < 0 || !port_text_ok(s.subrange(c + 1, s.len() as int)) {
        None
    } else {
        let h = s.subrange(0, c);
        if h.len() >= 2 && h[0] == '[' && h[h.len() - 1] == ']' {
            Some(h.subrange(1, h.len() - 1))
        } else {
            Some(h)
        }
    }
}

/// The address of an upstream written as `ip:port`, `[ipv6]:port` or a bare
/// address. A bracketed host must be IPv6, a bare host of `host:port` IPv4.
pub open spec fn upstream_ip_spec(s: Seq<char>) -> Option<IpAddress> {
    match socket_host(s) {
        Some(h) => {
            let c = last_colon(s, s.len() as int);
            if s[0] == '[' && c >= 2 && s[c - 1] == ']' {
                match ipv6_text_value(h) {
                    Some(v6) => Some(IpAddress::V6(v6)),
                    None => ip_text_value(s),
                }
            } else {
                match ipv4_text_value(h) {
                    Some(v4) => Some(IpAddress::V4(v4)),
                    None => ip_text_value(s),
                }
            }
        },
        None => ip_text_value(s),
    }
}

/// A prefix of a digit string has no larger decimal value than the whole.
proof fn lemma_decimal_prefix_bound(p: Seq<char>, j: int)
    requires
        0 <= j <= p.len(),
    ensures
        decimal_value(p.subrange(0, j)) <= decimal_value(p),
    decreases p.len(),
{
    if j < p.len() {
        let q = p.drop_last();
        assert(q.subrange(0, j) == p.subrange(0, j));
        lemma_decimal_prefix_bound(q, j);
    } else {
        assert(p.subrange(0, j) == p);
    }
}

/// Reads the address of an upstream such as `1.2.3.4:53`, `[2001:db8::1]:53`
/// or `1.2.3.4`.
pub fn try_parse_upstream_ip(upstream: &str) -> (r: Option<IpAddress>)
    ensures
        r == upstream_ip_spec(upstream@),
{
    let n = upstream.unicode_len();
    let ghost s = upstream@;
    // find the last colon
    let mut c: usize = n;
    while c > 0 && upstream.get_char(c - 1) != ':'
        invariant
            n == s.len(),
            c <= n,
            s == upstream@,
            last_colon(s, n as int) == last_colon(s, c as int),
        decreases c,
    {
        c = c - 1;
    }
    if c == 0 {
        return parse_ip(upstream);
    }
    let colon = c - 1;
    assert(last_colon(s, n as int) == colon as int);
    // the port must be one to five digits, at most 65535
    let plen = n - colon - 1;
    if plen < 1 || plen > 5 {
        assert(!port_text_ok(s.subrange(colon + 1, n as int)));
        return parse_ip(upstream);
    }
    let ghost p = s.subrange(colon + 1, n as int);
    let mut value: u32 = 0;
    let mut k: usize = colon + 1;
    while k < n
        invariant
            colon + 1 <= k <= n,
            n == s.len(),
            s == upstream@,
            p == s.subrange(colon + 1, n as int),
            last_colon(s, n as int) == colon as int,
            forall|i: int| 0 <= i < k - colon - 1 ==> is_digit(#[trigger] p[i]),
            value as nat == decimal_value(p.subrange(0, k - colon - 1)),
            value <= 65535,
        decreases n - k,
    {
        let d = upstream.get_char(k);
        if !('0' <= d && d <= '9') {
            assert(!is_digit(p[k - colon - 1]));
            assert(!port_text_ok(p));
            assert(socket_host(s) is None);
            return parse_ip(upstream);
        }
        assert(p.subrange(0, k + 1 - colon - 1).drop_last() == p.subrange(0, k - colon - 1));
        value = value * 10 + ((d as u32) - ('0' as u32));
        k = k + 1;
        if value > 65535 {
            proof {
                lemma_decimal_prefix_bound(p, (k - colon - 1) as int);
                assert(!port_text_ok(p));
                assert(socket_host(s) is None);
            }
            return parse_ip(upstream);
        }
    }
    assert(p.subrange(0, n - colon - 1) == p);
    let host = upstream.substring_char(0, colon);
    let bracketed = colon >= 2 && upstream.get_char(0) == '[' && upstream.get_char(colon - 1) == ']';
    let parsed = if bracketed {
        let inner = upstream.substring_char(1, colon - 1);
        assert(inner@ == host@.subrange(1, host@.len() - 1));
        match parse_ipv6_text(inner) {
            Some(v6) => Some(IpAddress::V6(v6)),
            None => None,
        }
    } else {
        match parse_ipv4_text(host) {
            Some(v4) => Some(IpAddress::V4(v4)),
            None => None,
        }
    };
    match parsed {
        Some(ip) => Some(ip),
        None => parse_ip(upstream),
    }
}

} // verus!
