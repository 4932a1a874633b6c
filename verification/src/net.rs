//! IP addresses, networks, socket addresses, and the upstream egress policy.

use vstd::prelude::*;

verus! {

/// An IP address by its numeric value (network byte order read as an integer).
#[derive(Clone, Copy, Debug, PartialEq, Eq, Structural)]
pub enum IpAddress {
    V4(u32),
    V6(u128),
}

/// An IP network: an address and a prefix length that fits its family.
#[derive(Clone, Copy, Debug, PartialEq, Eq, Structural)]
pub struct Cidr {
    pub addr: IpAddress,
    pub prefix_len: u8,
}

/// A socket address: an IP address and a port.
#[derive(Clone, Copy, Debug, PartialEq, Eq, Structural)]
pub struct SocketAddress {
    pub ip: IpAddress,
    pub port: u16,
}

pub open spec fn family_width(a: IpAddress) -> int {
    match a {
        IpAddress::V4(_) => 32,
        IpAddress::V6(_) => 128,
    }
}

pub open spec fn v4_unspecified(ip: u32) -> bool { ip == 0 }
pub open spec fn v4_multicast(ip: u32) -> bool { (ip >> 28u32) == 14 }
pub open spec fn v4_link_local(ip: u32) -> bool { (ip >> 16u32) == 0xa9fe }
pub open spec fn v4_loopback(ip: u32) -> bool { (ip >> 24u32) == 127 }
pub open spec fn v4_private(ip: u32) -> bool {
    (ip >> 24u32) == 10 || (ip >> 20u32) == 0xac1 || (ip >> 16u32) == 0xc0a8
}
pub open spec fn v6_unspecified(ip: u128) -> bool { ip == 0 }
pub open spec fn v6_multicast(ip: u128) -> bool { (ip >> 120u128) == 0xff }
pub open spec fn v6_link_local(ip: u128) -> bool { (ip >> 118u128) == 0x3fa }
pub open spec fn v6_loopback(ip: u128) -> bool { ip == 1 }
pub open spec fn v6_unique_local(ip: u128) -> bool { (ip >> 121u128) == 0x7e }

impl IpAddress {
    pub open spec fn spec_unspecified(self) -> bool {
        match self {
            IpAddress::V4(v) => v4_unspecified(v),
            IpAddress::V6(v) => v6_unspecified(v),
        }
    }

    pub open spec fn spec_multicast(self) -> bool {
        match self {
            IpAddress::V4(v) => v4_multicast(v),
            IpAddress::V6(v) => v6_multicast(v),
        }
    }

    pub open spec fn spec_link_local(self) -> bool {
        match self {
            IpAddress::V4(v) => v4_link_local(v),
            IpAddress::V6(v) => v6_link_local(v),
        }
    }

    pub open spec fn spec_loopback(self) -> bool {
        match self {
            IpAddress::V4(v) => v4_loopback(v),
            IpAddress::V6(v) => v6_loopback(v),
        }
    }

    /// Private or loopback: RFC 1918 and 127/8 for IPv4, fc00::/7 and ::1 for IPv6.
    pub open spec fn spec_private_or_loopback(self) -> bool {
        match self {
            IpAddress::V4(v) => v4_private(v) || v4_loopback(v),
            IpAddress::V6(v) => v6_unique_local(v) || v6_loopback(v),
        }
    }

    /// `0.0.0.0` / `::`.
    pub fn is_unspecified(&self) -> (r: bool)
        ensures
            r == self.spec_unspecified(),
    {
        match self {
            IpAddress::V4(v) => *v == 0,
            IpAddress::V6(v) => *v == 0,
        }
    }

    /// `224.0.0.0/4` / `ff00::/8`.
    pub fn is_multicast(&self) -> (r: bool)
        ensures
            r == self.spec_multicast(),
    {
        match self {
            IpAddress::V4(v) => (*v >> 28u32) == 14,
            IpAddress::V6(v) => (*v >> 120u128) == 0xff,
        }
    }

    /// `169.254.0.0/16` / `fe80::/10`.
    pub fn is_link_local(&self) -> (r: bool)
        ensures
            r == self.spec_link_local(),
    {
        match self {
            IpAddress::V4(v) => (*v >> 16u32) == 0xa9fe,
            IpAddress::V6(v) => (*v >> 118u128) == 0x3fa,
        }
    }

    /// `127.0.0.0/8` / `::1`.
    pub fn is_loopback(&self) -> (r: bool)
        ensures
            r == self.spec_loopback(),
    {
        match self {
            IpAddress::V4(v) => (*v >> 24u32) == 127,
            IpAddress::V6(v) => *v == 1,
        }
    }

    pub fn is_private_or_loopback(&self) -> (r: bool)
        ensures
            r == self.spec_private_or_loopback(),
    {
        match self {
            IpAddress::V4(v) => (*v >> 24u32) == 10 || (*v >> 20u32) == 0xac1 || (*v >> 16u32)
                == 0xc0a8 || (*v >> 24u32) == 127,
            IpAddress::V6(v) => (*v >> 121u128) == 0x7e || *v == 1,
        }
    }

    /// Parses the standard text form of an IPv4 or IPv6 address.
    pub fn parse(text: &str) -> (r: Option<IpAddress>)
        ensures
            r == std_ip_from_str(text@),
    {
        std_parse_ip(text)
    }
}

/// What `str::parse::<core::net::IpAddr>` gives for a text.
pub uninterp spec fn std_ip_from_str(text: Seq<char>) -> Option<IpAddress>;

/// What `str::parse::<core::net::SocketAddr>` gives for a text (the IPv6 flow
/// information and scope are not kept).
pub uninterp spec fn std_socket_from_str(text: Seq<char>) -> Option<SocketAddress>;

/// What `str::parse::<ipnet::IpNet>` gives for a text.
pub uninterp spec fn ipnet_from_str(text: Seq<char>) -> Option<Cidr>;

/// Calls `str::parse::<core::net::IpAddr>`; the result is the address it
/// parses, by its numeric value, or `None` when the text is not an address.
#[verifier::external_body]
fn std_parse_ip(text: &str) -> (r: Option<IpAddress>)
    ensures
        r == std_ip_from_str(text@),
{
    match text.parse::<core::net::IpAddr>() {
        Ok(core::net::IpAddr::V4(a)) => Some(IpAddress::V4(u32::from(a))),
        Ok(core::net::IpAddr::V6(a)) => Some(IpAddress::V6(u128::from(a))),
        Err(_) => None,
    }
}

/// Calls `str::parse::<core::net::SocketAddr>`; the result is the parsed IP
/// address and port, or `None` when the text is not a socket address.
#[verifier::external_body]
fn std_parse_socket(text: &str) -> (r: Option<SocketAddress>)
    ensures
        r == std_socket_from_str(text@),
{
    match text.parse::<core::net::SocketAddr>() {
        Ok(core::net::SocketAddr::V4(a)) => Some(
            SocketAddress { ip: IpAddress::V4(u32::from(*a.ip())), port: a.port() },
        ),
        Ok(core::net::SocketAddr::V6(a)) => Some(
            SocketAddress { ip: IpAddress::V6(u128::from(*a.ip())), port: a.port() },
        ),
        Err(_) => None,
    }
}

/// Calls `str::parse::<ipnet::IpNet>`; the result is the parsed address and
/// prefix length. The crate refuses a prefix longer than the family allows,
/// so a returned network always has a fitting prefix.
#[verifier::external_body]
fn ipnet_parse(text: &str) -> (r: Option<Cidr>)
    ensures
        r == ipnet_from_str(text@),
        r matches Some(c) ==> c.prefix_len <= family_width(c.addr),
{
    match text.parse::<ipnet::IpNet>() {
        Ok(ipnet::IpNet::V4(n)) => Some(
            Cidr { addr: IpAddress::V4(u32::from(n.addr())), prefix_len: n.prefix_len() },
        ),
        Ok(ipnet::IpNet::V6(n)) => Some(
            Cidr { addr: IpAddress::V6(u128::from(n.addr())), prefix_len: n.prefix_len() },
        ),
        Err(_) => None,
    }
}

impl SocketAddress {
    /// Parses `ip:port` / `[ipv6]:port`.
    pub fn parse(text: &str) -> (r: Option<SocketAddress>)
        ensures
            r == std_socket_from_str(text@),
    {
        std_parse_socket(text)
    }
}

impl Cidr {
    pub open spec fn spec_addr(self) -> IpAddress {
        self.addr
    }

    pub open spec fn spec_prefix_len(self) -> u8 {
        self.prefix_len
    }

    /// Whether the network contains `ip`: same family and the first
    /// `prefix_len` bits agree.
    pub open spec fn spec_contains(self, ip: IpAddress) -> bool {
        match (self.addr, ip) {
            (IpAddress::V4(n), IpAddress::V4(a)) => self.prefix_len == 0 || (self.prefix_len
                <= 32 && (n >> ((32 - self.prefix_len) as u32)) == (a >> ((32
                - self.prefix_len) as u32))),
            (IpAddress::V6(n), IpAddress::V6(a)) => self.prefix_len == 0 || (self.prefix_len
                <= 128 && (n >> ((128 - self.prefix_len) as u128)) == (a >> ((128
                - self.prefix_len) as u128))),
            _ => false,
        }
    }

    /// A network from an address and a prefix length; `None` when the prefix
    /// is longer than the family allows.
    pub fn new(addr: IpAddress, prefix_len: u8) -> (r: Option<Cidr>)
        ensures
            r is Some <==> prefix_len <= family_width(addr),
            r matches Some(c) ==> c.addr == addr && c.prefix_len == prefix_len,
    {
        let width: u8 = match addr {
            IpAddress::V4(_) => 32,
            IpAddress::V6(_) => 128,
        };
        if prefix_len <= width {
            Some(Cidr { addr, prefix_len })
        } else {
            None
        }
    }

    /// Parses `address/prefix`.
    pub fn parse(text: &str) -> (r: Option<Cidr>)
        ensures
            r == ipnet_from_str(text@),
    {
        ipnet_parse(text)
    }

    pub fn addr(&self) -> (r: IpAddress)
        ensures
            r == self.addr,
    {
        self.addr
    }

    pub fn prefix_len(&self) -> (r: u8)
        ensures
            r == self.prefix_len,
    {
        self.prefix_len
    }

    pub fn contains(&self, ip: &IpAddress) -> (r: bool)
        ensures
            r == self.spec_contains(*ip),
    {
        match (self.addr, *ip) {
            (IpAddress::V4(n), IpAddress::V4(a)) => {
                if self.prefix_len == 0 {
                    true
                } else if self.prefix_len <= 32 {
                    let shift: u32 = (32 - self.prefix_len) as u32;
                    (n >> shift) == (a >> shift)
                } else {
                    false
                }
            },
            (IpAddress::V6(n), IpAddress::V6(a)) => {
                if self.prefix_len == 0 {
                    true
                } else if self.prefix_len <= 128 {
                    let shift: u128 = (128 - self.prefix_len) as u128;
                    (n >> shift) == (a >> shift)
                } else {
                    false
                }
            },
            _ => false,
        }
    }
}

pub open spec fn any_contains(nets: Seq<Cidr>, ip: IpAddress) -> bool {
    exists|i: int| 0 <= i < nets.len() && (#[trigger] nets[i]).spec_contains(ip)
}

pub fn nets_contain(nets: &[Cidr], ip: &IpAddress) -> (r: bool)
    ensures
        r == any_contains(nets@, *ip),
{
    let mut i: usize = 0;
    while i < nets.len()
        invariant
            i <= nets@.len(),
            forall|k: int| 0 <= k < i ==> !(#[trigger] nets@[k]).spec_contains(*ip),
        decreases nets@.len() - i,
    {
        if nets[i].contains(ip) {
            return true;
        }
        i += 1;
    }
    false
}

/// Why an upstream address is refused, in the order the rules are checked:
/// 0 unspecified or multicast, 1 link-local, 2 explicitly denied, 3 private or
/// loopback without an allow entry.
pub open spec fn egress_refusal(ip: IpAddress, allowed: Seq<Cidr>, denied: Seq<Cidr>) -> Option<
    int,
> {
    if ip.spec_unspecified() || ip.spec_multicast() {
        Some(0)
    } else if ip.spec_link_local() {
        Some(1)
    } else if any_contains(denied, ip) {
        Some(2)
    } else if ip.spec_private_or_loopback() && !any_contains(allowed, ip) {
        Some(3)
    } else {
        None
    }
}

pub open spec fn egress_refusal_text(code: int) -> Seq<char> {
    if code == 0 {
        "unspecified and multicast addresses are forbidden"@
    } else if code == 1 {
        "link-local addresses are forbidden"@
    } else if code == 2 {
        "address is explicitly denied"@
    } else {
        "private or loopback address requires allowed_cidrs"@
    }
}

/// Validate one resolved upstream address against the configured egress policy.
pub fn validate_egress_ip(ip: IpAddress, allowed: &[Cidr], denied: &[Cidr]) -> (r: Result<
    (),
    &'static str,
>)
    ensures
        r is Ok <==> egress_refusal(ip, allowed@, denied@) is None,
        r matches Err(m) ==> m@ == egress_refusal_text(egress_refusal(ip, allowed@, denied@)->0),
{
    if ip.is_unspecified() || ip.is_multicast() {
        return Err("unspecified and multicast addresses are forbidden");
    }
    if ip.is_link_local() {
        return Err("link-local addresses are forbidden");
    }
    if nets_contain(denied, &ip) {
        return Err("address is explicitly denied");
    }
    if ip.is_private_or_loopback() && !nets_contain(allowed, &ip) {
        return Err("private or loopback address requires allowed_cidrs");
    }
    Ok(())
}


/// The text that `core::net::IpAddr`'s `Display` gives for an address.
pub uninterp spec fn std_ip_text(ip: IpAddress) -> Seq<char>;

/// Formats an address with `core::net::IpAddr`'s `Display`; the text is
/// named by `std_ip_text`.
#[verifier::external_body]
fn std_format_ip(ip: IpAddress) -> (r: String)
    ensures
        r@ == std_ip_text(ip),
{
    match ip {
        IpAddress::V4(v) => core::net::IpAddr::V4(core::net::Ipv4Addr::from(v)).to_string(),
        IpAddress::V6(v) => core::net::IpAddr::V6(core::net::Ipv6Addr::from(v)).to_string(),
    }
}

impl IpAddress {
    /// The standard text form of the address.
    pub fn to_text(&self) -> (r: String)
        ensures
            r@ == std_ip_text(*self),
    {
        std_format_ip(*self)
    }
}

} // verus!
