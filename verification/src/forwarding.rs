//! Client identity behind trusted reverse proxies, and the canonical
//! forwarding headers sent upstream.

use vstd::prelude::*;
use vstd::string::{StrSliceExecFns, StringExecFns};
use vstd::utf8::decode_utf8;
use crate::text::{utf8, ascii_string, str_chars, trimmed, chars_trim};
use crate::net::{IpAddress, std_ip_from_str, std_ip_text, any_contains, nets_contain};
use crate::route::{visible_ascii, bytes_visible_ascii};
use crate::negotiate::{find_upto, lemma_find_upto, chars_find_upto};
use crate::web::{header_value_ok, is_header_value};
use crate::error::{decimal, decimal_text};
use crate::schema::TrustedProxyConfig;

verus! {

/// Most addresses a trusted `X-Forwarded-For` chain may hold.
pub const MAX_FORWARDED_ADDRESSES: usize = 33;

/// Why forwarding headers cannot be normalized.
#[derive(Clone, Copy, Debug, PartialEq, Eq, Structural)]
pub enum NormalizeError {
    /// A trusted forwarding header is malformed.
    InvalidForwarding,
    /// A canonical forwarding header could not be built.
    InvalidCanonicalHeader,
}

/// An address is one of a trusted proxy.
pub open spec fn trusted_spec(ip: IpAddress, policy: TrustedProxyConfig) -> bool {
    any_contains(policy.cidrs@, ip)
}

/// The addresses of a comma-separated list from position `s` on, each
/// trimmed; `None` when one is empty or not an address.
pub open spec fn chain_items(c: Seq<char>, s: int) -> Option<Seq<IpAddress>>
    decreases c.len() - s,
{
    if s < 0 || s > c.len() {
        Some(Seq::empty())
    } else {
        let e = find_upto(c, ',', s, c.len() as int);
        let t = trimmed(c, s, e);
        if t.len() == 0 {
            None
        } else {
            match std_ip_from_str(t) {
                None => None,
                Some(ip) => if e < c.len() {
                    proof {
                        lemma_find_upto(c, ',', s, c.len() as int);
                    }
                    match chain_items(c, e + 1) {
                        None => None,
                        Some(rest) => Some(seq![ip] + rest),
                    }
                } else {
                    Some(seq![ip])
                },
            }
        }
    }
}

/// The `X-Forwarded-For` chain: `Some(None)` without the field; `None` when
/// the field repeats, is not visible ASCII, holds a malformed address, or
/// more than the bounded number of addresses.
pub open spec fn forwarded_chain(values: Seq<Vec<u8>>) -> Option<Option<Seq<IpAddress>>> {
    if values.len() == 0 {
        Some(None)
    } else if values.len() > 1 || !visible_ascii(values[0]@) {
        None
    } else {
        match chain_items(decode_utf8(values[0]@), 0) {
            None => None,
            Some(a) => if a.len() == 0 || a.len() > MAX_FORWARDED_ADDRESSES {
                None
            } else {
                Some(Some(a))
            },
        }
    }
}

/// Follows the chain from its right end while the current hop is trusted,
/// at most `trusted_hops` times.
pub open spec fn walk_chain(
    a: Seq<IpAddress>,
    policy: TrustedProxyConfig,
    current: IpAddress,
    k: int,
) -> IpAddress
    decreases a.len() - k,
{
    if k < 0 || k >= a.len() || k >= policy.trusted_hops || !trusted_spec(current, policy) {
        current
    } else {
        walk_chain(a, policy, a[a.len() - 1 - k], k + 1)
    }
}

/// The client address: the peer unless it is a trusted proxy, in which case
/// the trusted chain is followed.
pub open spec fn client_ip_spec(
    values: Seq<Vec<u8>>,
    peer: IpAddress,
    policy: TrustedProxyConfig,
) -> Option<IpAddress> {
    if !trusted_spec(peer, policy) {
        Some(peer)
    } else {
        match forwarded_chain(values) {
            None => None,
            Some(None) => Some(peer),
            Some(Some(a)) => Some(walk_chain(a, policy, peer, 0)),
        }
    }
}

fn chain_addresses(v: &Vec<u8>) -> (r: Option<Vec<IpAddress>>)
    requires
        visible_ascii(v@),
    ensures
        match chain_items(decode_utf8(v@), 0) {
            None => r is None,
            Some(a) => r matches Some(x) && x@ == a,
        },
{
    let text = ascii_string(v);
    proof {
        vstd::utf8::encode_utf8_decode_utf8(text@);
    }
    let c = str_chars(text.as_str());
    let n = c.len();
    let ghost cs = c@;
    let mut acc: Vec<IpAddress> = Vec::new();
    let mut s: usize = 0;
    loop
        invariant
            cs == c@,
            cs == text@,
            cs == decode_utf8(v@),
            n == cs.len(),
            s <= n,
            chain_items(cs, 0) == match chain_items(cs, s as int) {
                None => None::<Seq<IpAddress>>,
                Some(rest) => Some(acc@ + rest),
            },
        decreases n - s,
    {
        let e = chars_find_upto(&c, ',', s, n);
        let (a, b) = chars_trim(&c, s, e);
        if a == b {
            return None;
        }
        let item = text.as_str().substring_char(a, b);
        let ip = match IpAddress::parse(item) {
            None => {
                return None;
            },
            Some(ip) => ip,
        };
        let ghost before = acc@;
        acc.push(ip);
        if e >= n {
            proof {
                assert(before + seq![ip] =~= acc@);
            }
            return Some(acc);
        }
        proof {
            match chain_items(cs, e + 1) {
                None => {},
                Some(rest) => {
                    assert(before + (seq![ip] + rest) =~= acc@ + rest);
                },
            }
        }
        s = e + 1;
    }
}

fn walk(a: &Vec<IpAddress>, policy: &TrustedProxyConfig, peer: IpAddress) -> (r: IpAddress)
    ensures
        r == walk_chain(a@, *policy, peer, 0),
{
    let mut current = peer;
    let mut k: usize = 0;
    while k < a.len()
        invariant
            k <= a@.len(),
            walk_chain(a@, *policy, peer, 0) == walk_chain(a@, *policy, current, k as int),
        decreases a@.len() - k,
    {
        if k >= policy.trusted_hops || !nets_contain(policy.cidrs.as_slice(), &current) {
            return current;
        }
        current = a[a.len() - 1 - k];
        k += 1;
    }
    current
}

/// The client address behind a peer, from the `X-Forwarded-For` values.
pub fn trusted_client_ip(
    forwarded_for: &Vec<Vec<u8>>,
    peer: IpAddress,
    policy: &TrustedProxyConfig,
) -> (r: Result<IpAddress, NormalizeError>)
    ensures
        match client_ip_spec(forwarded_for@, peer, *policy) {
            Some(ip) => r == Ok::<IpAddress, NormalizeError>(ip),
            None => r == Err::<IpAddress, NormalizeError>(NormalizeError::InvalidForwarding),
        },
{
    if !nets_contain(policy.cidrs.as_slice(), &peer) {
        return Ok(peer);
    }
    if forwarded_for.len() == 0 {
        return Ok(peer);
    }
    if forwarded_for.len() > 1 || !bytes_visible_ascii(forwarded_for[0].as_slice()) {
        return Err(NormalizeError::InvalidForwarding);
    }
    let addresses = match chain_addresses(&forwarded_for[0]) {
        None => {
            return Err(NormalizeError::InvalidForwarding);
        },
        Some(a) => a,
    };
    if addresses.len() == 0 || addresses.len() > MAX_FORWARDED_ADDRESSES {
        return Err(NormalizeError::InvalidForwarding);
    }
    Ok(walk(&addresses, policy, peer))
}

/// The `for=` parameter of a `Forwarded` field: an IPv6 address is
/// bracketed and quoted.
pub open spec fn forwarded_for_text(ip: IpAddress) -> Seq<char> {
    match ip {
        IpAddress::V4(_) => std_ip_text(ip),
        IpAddress::V6(_) => "\"["@ + std_ip_text(ip) + "]\""@,
    }
}

/// The forwarding fields a request carries upstream, in insertion order.
pub open spec fn forwarding_fields(
    ip: IpAddress,
    scheme: Seq<char>,
    host: Seq<char>,
    port: u16,
) -> Seq<(Seq<char>, Seq<char>)> {
    seq![
        ("x-forwarded-for"@, std_ip_text(ip)),
        ("x-real-ip"@, std_ip_text(ip)),
        ("x-forwarded-host"@, host),
        ("x-forwarded-proto"@, scheme),
        ("x-forwarded-port"@, decimal_text(port as nat)),
        ("forwarded"@, "for="@ + forwarded_for_text(ip) + ";proto="@ + scheme + ";host=\""@ + host
            + "\""@),
    ]
}

/// The fields removed from every request before the canonical ones are set.
pub open spec fn forwarding_names() -> Seq<Seq<char>> {
    seq![
        "forwarded"@,
        "x-forwarded-for"@,
        "x-forwarded-host"@,
        "x-forwarded-proto"@,
        "x-forwarded-port"@,
        "x-real-ip"@,
        "x-request-id"@,
    ]
}

/// What normalization does to a request's forwarding fields.
#[derive(Debug)]
pub struct ForwardingPlan {
    /// The client address.
    pub client: IpAddress,
    /// Field names to remove first.
    pub remove: Vec<String>,
    /// Fields to set afterwards, in order.
    pub insert: Vec<(String, String)>,
}

pub open spec fn pair_views(v: Seq<(String, String)>) -> Seq<(Seq<char>, Seq<char>)> {
    v.map_values(|p: (String, String)| (p.0@, p.1@))
}

pub open spec fn string_views(v: Seq<String>) -> Seq<Seq<char>> {
    v.map_values(|s: String| s@)
}

/// Every value is a valid header value.
pub open spec fn fields_valid(f: Seq<(Seq<char>, Seq<char>)>) -> bool {
    forall|i: int| 0 <= i < f.len() ==> header_value_ok(utf8((#[trigger] f[i]).1))
}

fn string_of(s: &str) -> (r: String)
    ensures
        r@ == s@,
{
    String::from_str(s)
}

/// Builds the canonical forwarding fields.
pub fn rebuild_forwarding_headers(client_ip: IpAddress, scheme: &str, host: &str, port: u16) -> (r:
    Result<Vec<(String, String)>, NormalizeError>)
    ensures
        r is Ok <==> fields_valid(forwarding_fields(client_ip, scheme@, host@, port)),
        r matches Ok(v) ==> pair_views(v@) == forwarding_fields(client_ip, scheme@, host@, port),
        r matches Err(e) ==> e == NormalizeError::InvalidCanonicalHeader,
{
    let ghost f = forwarding_fields(client_ip, scheme@, host@, port);
    let ip_text = client_ip.to_text();
    let port_text = decimal(port as usize);
    let mut ff = String::new();
    match client_ip {
        IpAddress::V4(_) => {
            ff.append(ip_text.as_str());
        },
        IpAddress::V6(_) => {
            ff.append("\"[");
            ff.append(ip_text.as_str());
            ff.append("]\"");
        },
    }
    assert(ff@ =~= forwarded_for_text(client_ip));
    let mut fwd = String::from_str("for=");
    fwd.append(ff.as_str());
    fwd.append(";proto=");
    fwd.append(scheme);
    fwd.append(";host=\"");
    fwd.append(host);
    fwd.append("\"");
    assert(fwd@ =~= f[5].1);
    let mut out: Vec<(String, String)> = Vec::new();
    out.push((string_of("x-forwarded-for"), string_of(ip_text.as_str())));
    out.push((string_of("x-real-ip"), string_of(ip_text.as_str())));
    out.push((string_of("x-forwarded-host"), string_of(host)));
    out.push((string_of("x-forwarded-proto"), string_of(scheme)));
    out.push((string_of("x-forwarded-port"), string_of(port_text.as_str())));
    out.push((string_of("forwarded"), fwd));
    assert(pair_views(out@) =~= f);
    let mut i: usize = 0;
    while i < out.len()
        invariant
            i <= out@.len(),
            f == forwarding_fields(client_ip, scheme@, host@, port),
            pair_views(out@) == f,
            forall|k: int| 0 <= k < i ==> header_value_ok(utf8((#[trigger] f[k]).1)),
        decreases out@.len() - i,
    {
        assert(out@[i as int].1@ == f[i as int].1);
        if !is_header_value(out[i].1.as_str()) {
            assert(!header_value_ok(utf8(f[i as int].1)));
            return Err(NormalizeError::InvalidCanonicalHeader);
        }
        i += 1;
    }
    Ok(out)
}

/// Normalizes forwarding fields: the client address (the peer unless it is
/// a trusted proxy), the fields to strip, and the canonical fields to set.
pub fn normalize_forwarding_headers(
    forwarded_for: &Vec<Vec<u8>>,
    peer: IpAddress,
    policy: &TrustedProxyConfig,
    scheme: &str,
    host: &str,
    port: u16,
) -> (r: Result<ForwardingPlan, NormalizeError>)
    ensures
        match client_ip_spec(forwarded_for@, peer, *policy) {
            None => r == Err::<ForwardingPlan, NormalizeError>(NormalizeError::InvalidForwarding),
            Some(ip) => if fields_valid(forwarding_fields(ip, scheme@, host@, port)) {
                r matches Ok(plan) && plan.client == ip && string_views(plan.remove@)
                    == forwarding_names() && pair_views(plan.insert@) == forwarding_fields(
                    ip,
                    scheme@,
                    host@,
                    port,
                )
            } else {
                r == Err::<ForwardingPlan, NormalizeError>(NormalizeError::InvalidCanonicalHeader)
            },
        },
{
    let client = match trusted_client_ip(forwarded_for, peer, policy) {
        Ok(ip) => ip,
        Err(e) => {
            return Err(e);
        },
    };
    let insert = match rebuild_forwarding_headers(client, scheme, host, port) {
        Ok(v) => v,
        Err(e) => {
            return Err(e);
        },
    };
    let mut remove: Vec<String> = Vec::new();
    remove.push(string_of("forwarded"));
    remove.push(string_of("x-forwarded-for"));
    remove.push(string_of("x-forwarded-host"));
    remove.push(string_of("x-forwarded-proto"));
    remove.push(string_of("x-forwarded-port"));
    remove.push(string_of("x-real-ip"));
    remove.push(string_of("x-request-id"));
    assert(string_views(remove@) =~= forwarding_names());
    Ok(ForwardingPlan { client, remove, insert })
}

/// An untrusted peer is its own client, whatever it sends.
pub proof fn lemma_untrusted_peer_is_client(
    values: Seq<Vec<u8>>,
    peer: IpAddress,
    policy: TrustedProxyConfig,
)
    requires
        !trusted_spec(peer, policy),
    ensures
        client_ip_spec(values, peer, policy) == Some(peer),
{
}

/// Following the chain stops at an untrusted hop, after at most
/// `trusted_hops` hops: the client is the peer or a listed address, and
/// every hop followed was trusted.
pub proof fn lemma_walk_stays_in_chain(
    a: Seq<IpAddress>,
    policy: TrustedProxyConfig,
    current: IpAddress,
    k: int,
)
    requires
        0 <= k <= a.len(),
    ensures
        walk_chain(a, policy, current, k) == current || exists|j: int|
            a.len() - policy.trusted_hops <= j < a.len() - k && 0 <= j && #[trigger] a[j]
                == walk_chain(a, policy, current, k),
    decreases a.len() - k,
{
    if k < a.len() && k < policy.trusted_hops && trusted_spec(current, policy) {
        let next = a[a.len() - 1 - k];
        lemma_walk_stays_in_chain(a, policy, next, k + 1);
        if walk_chain(a, policy, next, k + 1) == next {
            assert(a[a.len() - 1 - k] == walk_chain(a, policy, current, k));
        }
    }
}

/// With no trusted hops the chain is never followed.
pub proof fn lemma_zero_hops_keeps_peer(a: Seq<IpAddress>, policy: TrustedProxyConfig, peer: IpAddress)
    requires
        policy.trusted_hops == 0,
    ensures
        walk_chain(a, policy, peer, 0) == peer,
{
}


/// Walking the chain from position `k` (counted from its right end) with
/// `current` in hand never passes an untrusted address: the result is
/// `current`, or `current` is trusted and the result is a listed address
/// `a[j]` within the hop bound such that every address right of `j` (up to
/// where the walk started) is trusted.
proof fn lemma_walk_passes_only_trusted(
    a: Seq<IpAddress>,
    policy: TrustedProxyConfig,
    current: IpAddress,
    k: int,
)
    requires
        0 <= k <= a.len(),
    ensures
        ({
            let c = walk_chain(a, policy, current, k);
            c == current || (trusted_spec(current, policy) && exists|j: int|
                0 <= j < a.len() - k && c == a[j] && a.len() - j <= policy.trusted_hops && forall|
                    m: int,
                | j < m < a.len() - k ==> trusted_spec(#[trigger] a[m], policy))
        }),
    decreases a.len() - k,
{
    if k < a.len() && k < policy.trusted_hops && trusted_spec(current, policy) {
        let next = a[a.len() - 1 - k];
        lemma_walk_passes_only_trusted(a, policy, next, k + 1);
        let c = walk_chain(a, policy, next, k + 1);
        assert(c == walk_chain(a, policy, current, k));
        if c == next {
            let j = a.len() - 1 - k;
            assert(c == a[j] && a.len() - j <= policy.trusted_hops);
        } else {
            let j = choose|j: int|
                0 <= j < a.len() - (k + 1) && c == a[j] && a.len() - j <= policy.trusted_hops && forall|
                    m: int,
                | j < m < a.len() - (k + 1) ==> trusted_spec(#[trigger] a[m], policy);
            assert forall|m: int| j < m < a.len() - k implies trusted_spec(#[trigger] a[m], policy) by {
                if m == a.len() - 1 - k {
                    assert(a[m] == next);
                }
            }
        }
    }
}

/// The client behind trusted proxies is never taken from past an untrusted
/// hop: it is the peer itself, or the peer is a trusted proxy and the
/// client is the `X-Forwarded-For` entry at some index `j`, within
/// `trusted_hops` of the right end, with every entry right of `j` a trusted
/// proxy. So with peer 10.0.0.3, chain 203.0.113.7, 192.0.2.1, 10.0.0.2 and
/// trusted 10.0.0.0/8, the client is 192.0.2.1, never 203.0.113.7.
pub proof fn lemma_client_never_past_untrusted_hop(
    values: Seq<Vec<u8>>,
    peer: IpAddress,
    policy: TrustedProxyConfig,
)
    ensures
        match client_ip_spec(values, peer, policy) {
            Some(c) => c == peer || (trusted_spec(peer, policy) && match forwarded_chain(values) {
                Some(Some(a)) => exists|j: int|
                    0 <= j < a.len() && c == a[j] && a.len() - j <= policy.trusted_hops && forall|
                        m: int,
                    | j < m < a.len() ==> trusted_spec(#[trigger] a[m], policy),
                _ => false,
            }),
            None => true,
        },
{
    if trusted_spec(peer, policy) {
        if let Some(Some(a)) = forwarded_chain(values) {
            lemma_walk_passes_only_trusted(a, policy, peer, 0);
        }
    }
}



/// The address the walk holds after `t` hops: the peer, then the chain
/// entries from the right.
pub open spec fn hop_address(a: Seq<IpAddress>, peer: IpAddress, t: int) -> IpAddress {
    if t == 0 {
        peer
    } else {
        a[a.len() - t]
    }
}

/// Hops taken: the walk from hop `k` ends after hop `t`, every address held
/// from hop `k` to before hop `t` being trusted.
pub open spec fn walk_ends_at(
    a: Seq<IpAddress>,
    policy: TrustedProxyConfig,
    peer: IpAddress,
    k: int,
    t: int,
) -> bool {
    &&& k <= t <= a.len()
    &&& t <= policy.trusted_hops
    &&& forall|s: int| k <= s < t ==> trusted_spec(#[trigger] hop_address(a, peer, s), policy)
    &&& (t == a.len() || t == policy.trusted_hops || !trusted_spec(hop_address(a, peer, t), policy))
}

proof fn lemma_walk_from(a: Seq<IpAddress>, policy: TrustedProxyConfig, peer: IpAddress, k: int) -> (t:
    int)
    requires
        0 <= k <= a.len(),
        k <= policy.trusted_hops,
    ensures
        walk_ends_at(a, policy, peer, k, t),
        walk_chain(a, policy, hop_address(a, peer, k), k) == hop_address(a, peer, t),
    decreases a.len() - k,
{
    let current = hop_address(a, peer, k);
    if k < a.len() && k < policy.trusted_hops && trusted_spec(current, policy) {
        assert(hop_address(a, peer, k + 1) == a[a.len() - 1 - k]);
        let t = lemma_walk_from(a, policy, peer, k + 1);
        assert forall|s: int| k <= s < t implies trusted_spec(#[trigger] hop_address(a, peer, s), policy) by {
            if s == k {
                assert(hop_address(a, peer, s) == current);
            }
        }
        t
    } else {
        k
    }
}

/// The client behind a trusted peer is reached by taking hops from the
/// right end of the chain, starting at the peer, while the address in hand
/// is a trusted proxy, the chain lasts and fewer than `trusted_hops` hops
/// were taken: after `t` hops, every address held before was trusted, and
/// the walk stopped because the chain or the hop bound ran out or the
/// address held is untrusted.
pub proof fn lemma_client_is_first_untrusted_hop(
    values: Seq<Vec<u8>>,
    peer: IpAddress,
    policy: TrustedProxyConfig,
    a: Seq<IpAddress>,
)
    requires
        trusted_spec(peer, policy),
        forwarded_chain(values) == Some(Some(a)),
    ensures
        exists|t: int|
            client_ip_spec(values, peer, policy) == Some(hop_address(a, peer, t)) && #[trigger] walk_ends_at(
                a,
                policy,
                peer,
                0,
                t,
            ),
{
    let t = lemma_walk_from(a, policy, peer, 0);
    assert(walk_ends_at(a, policy, peer, 0, t));
}

} // verus!
