//! Strict service-discovery provider contracts.

pub mod dns;
pub mod file;

use vstd::prelude::*;
use vstd::string::StringExecFns;
use crate::net::{IpAddress, SocketAddress, std_ip_text};
use crate::web::{WebUrl, url_from_str};
use crate::schema::EndpointConfig;
use crate::error::{decimal, decimal_text};
use crate::text::{utf8, lower_hex, hex, ascii_string};
use crate::route::lemma_utf8_concat;

verus! {

/// Maximum service-discovery providers in one configuration.
pub const MAX_PROVIDERS: usize = 64;

/// Maximum bytes read from one provider file.
pub const MAX_FILE_BYTES: usize = 1024 * 1024;

/// Provider document or endpoint normalization failure.
#[derive(Debug, PartialEq, Eq, Structural)]
pub enum ProviderError {
    /// Provider input exceeded its hard byte or object limit.
    Limit,
    /// Provider input did not match its strict schema.
    Invalid,
    /// Provider document identifies another configured provider.
    Identity,
}

/// Approved provider transport template.
#[derive(Clone, Copy, Debug, PartialEq, Eq, Structural)]
pub enum ProviderScheme {
    /// Plain HTTP upstream.
    Http,
    /// Verified HTTPS upstream.
    Https,
    /// Raw TCP upstream.
    Tcp,
}

impl ProviderScheme {
    pub open spec fn spec_as_str(self) -> Seq<char> {
        match self {
            ProviderScheme::Http => "http"@,
            ProviderScheme::Https => "https"@,
            ProviderScheme::Tcp => "tcp"@,
        }
    }

    /// Return URL scheme text.
    pub fn as_str(self) -> (r: &'static str)
        ensures
            r@ == self.spec_as_str(),
    {
        match self {
            ProviderScheme::Http => "http",
            ProviderScheme::Https => "https",
            ProviderScheme::Tcp => "tcp",
        }
    }
}

/// Local file provider policy declared in trusted base configuration.
#[derive(Clone, Debug)]
pub struct FileProviderConfig {
    /// Stable provider ID.
    pub id: String,
    /// Explicit activation; defaults false.
    pub enabled: bool,
    /// Sole upstream group whose endpoints may be replaced.
    pub upstream_group: String,
    /// Absolute provider document path.
    pub path: String,
    /// Fixed transport scheme.
    pub scheme: ProviderScheme,
    /// Trusted TLS server name required for HTTPS.
    pub server_name: Option<String>,
    /// Trusted custom CA secret reference for HTTPS.
    pub ca_bundle: Option<String>,
    /// Refresh interval.
    pub refresh_secs: u64,
    /// Stable-file debounce period.
    pub debounce_millis: u64,
    /// Maximum last-valid age before static fallback.
    pub stale_after_secs: u64,
    /// Maximum endpoints accepted from document.
    pub max_endpoints: usize,
}

/// Trusted A/AAAA provider policy.
#[derive(Clone, Debug)]
pub struct DnsProviderConfig {
    /// Stable provider ID.
    pub id: String,
    /// Explicit activation; defaults false.
    pub enabled: bool,
    /// Sole upstream group whose endpoints may be replaced.
    pub upstream_group: String,
    /// Canonical configured A/AAAA name.
    pub hostname: String,
    /// Fixed destination port.
    pub port: u16,
    /// Fixed transport scheme.
    pub scheme: ProviderScheme,
    /// Trusted TLS server name required for HTTPS.
    pub server_name: Option<String>,
    /// Trusted custom CA secret reference for HTTPS.
    pub ca_bundle: Option<String>,
    /// Weight assigned to each answer.
    pub weight: u32,
    /// Refresh interval.
    pub refresh_secs: u64,
    /// Maximum last-valid age before static fallback.
    pub stale_after_secs: u64,
    /// Maximum raw A/AAAA answers.
    pub max_answers: usize,
}

/// Compile-time provider kinds supported by schema v1.
#[derive(Clone, Debug)]
pub enum ProviderConfig {
    /// Strict local file endpoint provider.
    File(FileProviderConfig),
    /// Bounded A/AAAA endpoint provider.
    Dns(DnsProviderConfig),
}

impl ProviderConfig {
    pub open spec fn spec_id(&self) -> Seq<char> {
        match self {
            ProviderConfig::File(p) => p.id@,
            ProviderConfig::Dns(p) => p.id@,
        }
    }

    pub open spec fn spec_enabled(&self) -> bool {
        match self {
            ProviderConfig::File(p) => p.enabled,
            ProviderConfig::Dns(p) => p.enabled,
        }
    }

    pub open spec fn spec_upstream_group(&self) -> Seq<char> {
        match self {
            ProviderConfig::File(p) => p.upstream_group@,
            ProviderConfig::Dns(p) => p.upstream_group@,
        }
    }

    pub open spec fn spec_refresh_secs(&self) -> u64 {
        match self {
            ProviderConfig::File(p) => p.refresh_secs,
            ProviderConfig::Dns(p) => p.refresh_secs,
        }
    }

    pub open spec fn spec_stale_after_secs(&self) -> u64 {
        match self {
            ProviderConfig::File(p) => p.stale_after_secs,
            ProviderConfig::Dns(p) => p.stale_after_secs,
        }
    }

    /// Stable configured provider ID.
    pub fn id(&self) -> (r: &str)
        ensures
            r@ == self.spec_id(),
    {
        match self {
            ProviderConfig::File(p) => p.id.as_str(),
            ProviderConfig::Dns(p) => p.id.as_str(),
        }
    }

    /// Whether provider is explicitly activated.
    pub fn enabled(&self) -> (r: bool)
        ensures
            r == self.spec_enabled(),
    {
        match self {
            ProviderConfig::File(p) => p.enabled,
            ProviderConfig::Dns(p) => p.enabled,
        }
    }

    /// Sole configured upstream namespace owned by provider.
    pub fn upstream_group(&self) -> (r: &str)
        ensures
            r@ == self.spec_upstream_group(),
    {
        match self {
            ProviderConfig::File(p) => p.upstream_group.as_str(),
            ProviderConfig::Dns(p) => p.upstream_group.as_str(),
        }
    }

    /// Provider refresh period.
    pub fn refresh_secs(&self) -> (r: u64)
        ensures
            r == self.spec_refresh_secs(),
    {
        match self {
            ProviderConfig::File(p) => p.refresh_secs,
            ProviderConfig::Dns(p) => p.refresh_secs,
        }
    }

    /// Maximum age of last valid provider result.
    pub fn stale_after_secs(&self) -> (r: u64)
        ensures
            r == self.spec_stale_after_secs(),
    {
        match self {
            ProviderConfig::File(p) => p.stale_after_secs,
            ProviderConfig::Dns(p) => p.stale_after_secs,
        }
    }

    /// Stable kind label.
    pub fn kind(&self) -> (r: &'static str)
        ensures
            r@ == (match self {
                ProviderConfig::File(_) => "file"@,
                ProviderConfig::Dns(_) => "dns"@,
            }),
    {
        match self {
            ProviderConfig::File(_) => "file",
            ProviderConfig::Dns(_) => "dns",
        }
    }
}

/// Default DNS provider weight.
pub fn default_dns_weight() -> (r: u32)
    ensures
        r == 1,
{
    1
}

/// Default DNS provider refresh period.
pub fn default_dns_refresh_secs() -> (r: u64)
    ensures
        r == 30,
{
    30
}

/// Default DNS provider staleness bound.
pub fn default_dns_stale_after_secs() -> (r: u64)
    ensures
        r == 300,
{
    300
}

/// Default DNS answer bound.
pub fn default_dns_max_answers() -> (r: usize)
    ensures
        r == 16,
{
    16
}

/// Default file provider refresh period.
pub fn default_file_refresh_secs() -> (r: u64)
    ensures
        r == 5,
{
    5
}

/// Default file provider debounce.
pub fn default_file_debounce_millis() -> (r: u64)
    ensures
        r == 250,
{
    250
}

/// Default file provider staleness bound.
pub fn default_file_stale_after_secs() -> (r: u64)
    ensures
        r == 300,
{
    300
}

/// Default file provider endpoint bound.
pub fn default_file_max_endpoints() -> (r: usize)
    ensures
        r == 64,
{
    64
}

/// The big-endian octets of an address.
pub open spec fn octets(ip: IpAddress) -> Seq<u8> {
    match ip {
        IpAddress::V4(v) => Seq::new(4, |k: int| ((v >> ((8 * (3 - k)) as u32)) & 0xff) as u8),
        IpAddress::V6(v) => Seq::new(16, |k: int| ((v >> ((8 * (15 - k)) as u128)) & 0xff) as u8),
    }
}

/// The big-endian octets of an address.
pub fn address_octets(ip: IpAddress) -> (r: Vec<u8>)
    ensures
        r@ == octets(ip),
{
    let mut out: Vec<u8> = Vec::new();
    match ip {
        IpAddress::V4(v) => {
            let mut k: u32 = 0;
            while k < 4
                invariant
                    k <= 4,
                    out@.len() == k,
                    forall|j: int|
                        0 <= j < k ==> #[trigger] out@[j] == ((v >> ((8 * (3 - j)) as u32)) & 0xff) as u8,
                decreases 4 - k,
            {
                out.push(((v >> (8 * (3 - k))) & 0xff) as u8);
                k += 1;
            }
        },
        IpAddress::V6(v) => {
            let mut k: u128 = 0;
            while k < 16
                invariant
                    k <= 16,
                    out@.len() == k,
                    forall|j: int|
                        0 <= j < k ==> #[trigger] out@[j] == ((v >> ((8 * (15 - j)) as u128)) & 0xff) as u8,
                decreases 16 - k,
            {
                out.push(((v >> (8 * (15 - k))) & 0xff) as u8);
                k += 1;
            }
        },
    }
    assert(out@ =~= octets(ip));
    out
}

/// The endpoint ID of a DNS answer: `v4-` or `v6-`, then the lowercase
/// hexadecimal of the address octets.
pub open spec fn dns_endpoint_id_bytes(ip: IpAddress) -> Seq<u8> {
    match ip {
        IpAddress::V4(_) => seq![0x76u8, 0x34u8, 0x2du8] + lower_hex(octets(ip)),
        IpAddress::V6(_) => seq![0x76u8, 0x36u8, 0x2du8] + lower_hex(octets(ip)),
    }
}

/// Stable endpoint ID of a DNS answer.
pub fn dns_endpoint_id(address: IpAddress) -> (r: String)
    ensures
        utf8(r@) == dns_endpoint_id_bytes(address),
{
    let digits = hex(address_octets(address).as_slice());
    let tail = ascii_string(&digits);
    let mut id = match address {
        IpAddress::V4(_) => String::from_str("v4-"),
        IpAddress::V6(_) => String::from_str("v6-"),
    };
    let ghost head = id@;
    id.append(tail.as_str());
    proof {
        reveal_strlit("v4-");
        reveal_strlit("v6-");
        lemma_utf8_concat(head, tail@);
        vstd::utf8::is_ascii_chars_encode_utf8(head);
        assert(utf8(head) =~= match address {
            IpAddress::V4(_) => seq![0x76u8, 0x34u8, 0x2du8],
            IpAddress::V6(_) => seq![0x76u8, 0x36u8, 0x2du8],
        });
    }
    id
}

/// The socket-address text `std::net::SocketAddr` displays for an address
/// and port: IPv6 addresses in brackets.
pub open spec fn socket_text(ip: IpAddress, port: u16) -> Seq<char> {
    match ip {
        IpAddress::V4(_) => std_ip_text(ip) + ":"@ + decimal_text(port as nat),
        IpAddress::V6(_) => "["@ + std_ip_text(ip) + "]:"@ + decimal_text(port as nat),
    }
}

/// The URL text of an endpoint: the provider's scheme, `://` and the socket
/// address.
pub open spec fn endpoint_url_text(scheme: ProviderScheme, ip: IpAddress, port: u16) -> Seq<char> {
    scheme.spec_as_str() + "://"@ + socket_text(ip, port)
}

/// The endpoint a provider record becomes, when its URL parses.
pub open spec fn endpoint_matches(
    e: EndpointConfig,
    id: Seq<char>,
    address: SocketAddress,
    weight: u32,
    scheme: ProviderScheme,
    server_name: Option<Seq<char>>,
    ca_bundle: Option<Seq<char>>,
) -> bool {
    &&& e.id@ == id
    &&& url_from_str(endpoint_url_text(scheme, address.ip, address.port)) == Some(e.url@)
    &&& e.weight == weight
    &&& crate::web::opt_view(e.server_name) == server_name
    &&& crate::web::opt_view(e.ca_bundle) == ca_bundle
}

fn copy_opt(o: &Option<String>) -> (r: Option<String>)
    ensures
        crate::web::opt_view(r) == crate::web::opt_view(*o),
{
    match o {
        Some(s) => Some(String::from_str(s.as_str())),
        None => None,
    }
}

/// Builds one endpoint through the trusted provider template: the URL is
/// the template scheme and the record's socket address.
pub fn endpoint(
    id: String,
    address: SocketAddress,
    weight: u32,
    scheme: ProviderScheme,
    server_name: &Option<String>,
    ca_bundle: &Option<String>,
) -> (r: Result<EndpointConfig, ProviderError>)
    ensures
        r is Err <==> url_from_str(endpoint_url_text(scheme, address.ip, address.port)) is None,
        r matches Err(e) ==> e == ProviderError::Invalid,
        r matches Ok(e) ==> endpoint_matches(
            e,
            id@,
            address,
            weight,
            scheme,
            crate::web::opt_view(*server_name),
            crate::web::opt_view(*ca_bundle),
        ),
{
    let mut text = String::from_str(scheme.as_str());
    text.append("://");
    match address.ip {
        IpAddress::V4(_) => {
            let ip = address.ip.to_text();
            text.append(ip.as_str());
            text.append(":");
        },
        IpAddress::V6(_) => {
            let ip = address.ip.to_text();
            text.append("[");
            text.append(ip.as_str());
            text.append("]:");
        },
    }
    let port = decimal(address.port as usize);
    text.append(port.as_str());
    assert(text@ =~= endpoint_url_text(scheme, address.ip, address.port));
    match WebUrl::parse(text.as_str()) {
        Some(url) => Ok(
            EndpointConfig {
                id,
                url,
                weight,
                server_name: copy_opt(server_name),
                ca_bundle: copy_opt(ca_bundle),
            },
        ),
        None => Err(ProviderError::Invalid),
    }
}

} // verus!
