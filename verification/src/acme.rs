//! ACME issuer, DNS provider, managed certificate and challenge rules.

use vstd::prelude::*;
use crate::text::{utf8, str_eq, starts_with, is_digit, ci_eq, str_chars, chars_ci_eq,
    slice_starts_with, byte_is_digit, byte_is_alnum, is_alnum};
use crate::checks::{contains_string, vec_contains_str};
use crate::error::{ConfigError, join2, join3, join4};
use crate::naming::{id_ok, cert_host_ok, valid_id, valid_certificate_host, id_message,
    cert_host_message};
use crate::net::{IpAddress, std_ip_from_str};
use crate::secret::{secret_ref_ok, secret_ref_valid, age_recipient_accepted, age_recipient_valid};
use crate::platform::{bounded_label, has_cc};
use crate::schema::{Config, ListenerConfig, AcmeIssuerConfig, AcmeEnvironment,
    AcmeCertificateConfig, AcmeChallenge, AcmeDnsProviderConfig};

verus! {

/// Maximum ACME issuers.
pub const MAX_ACME_ISSUERS: usize = 32;

/// Maximum managed plus static certificates.
pub const MAX_ACME_CERTIFICATES: usize = 1024;

/// Maximum ACME DNS providers.
pub const MAX_ACME_DNS_PROVIDERS: usize = 32;

pub open spec fn localhost_lit() -> Seq<char> {
    seq!['l', 'o', 'c', 'a', 'l', 'h', 'o', 's', 't']
}

/// `localhost` in any ASCII case, or a loopback IP literal.
pub open spec fn loopback_host(h: Seq<char>) -> bool {
    ci_eq(h, localhost_lit()) || match std_ip_from_str(h) {
        Some(ip) => ip.spec_loopback(),
        None => false,
    }
}

/// A directory URL without credentials, query or fragment, with a host;
/// HTTPS, or HTTP to a loopback host for a staging issuer.
pub open spec fn acme_directory_ok(issuer: AcmeIssuerConfig) -> bool {
    let u = issuer.directory_url@;
    &&& u.username.len() == 0
    &&& !u.has_password
    &&& u.query is None
    &&& u.fragment is None
    &&& u.host is Some
    &&& (u.scheme == "https"@ || (issuer.environment == AcmeEnvironment::Staging && u.scheme
        == "http"@ && loopback_host(u.host->0)))
}

/// Validates an issuer's directory URL.
pub fn validate_acme_directory(issuer: &AcmeIssuerConfig) -> (r: Result<(), ConfigError>)
    ensures
        r is Ok <==> acme_directory_ok(*issuer),
        match directory_error(*issuer) {
            Some(m) => r matches Err(ConfigError::Invalid(e)) && e@ == m,
            None => r is Ok,
        },
{
    let url = &issuer.directory_url;
    if url.username().as_bytes().len() != 0 || url.has_password() || url.has_query()
        || url.has_fragment() || url.host_str().is_none() {
        return Err(
            ConfigError::Invalid(
                join3(
                    "ACME issuer ",
                    issuer.id.as_str(),
                    " directory_url contains forbidden URL components",
                ),
            ),
        );
    }
    let loopback = match url.host_str() {
        Some(host) => {
            let c = str_chars(host);
            let lit: [char; 9] = ['l', 'o', 'c', 'a', 'l', 'h', 'o', 's', 't'];
            assert(lit@ =~= localhost_lit());
            assert(c@.subrange(0, c@.len() as int) =~= c@);
            chars_ci_eq(&c, 0, c.len(), lit.as_slice()) || match IpAddress::parse(host) {
                Some(ip) => ip.is_loopback(),
                None => false,
            }
        },
        None => false,
    };
    let valid_transport = str_eq(url.scheme(), "https") || (issuer.environment
        == AcmeEnvironment::Staging && str_eq(url.scheme(), "http") && loopback);
    if !valid_transport {
        return Err(
            ConfigError::Invalid(
                join3(
                    "ACME issuer ",
                    issuer.id.as_str(),
                    " directory_url must use HTTPS; staging permits loopback HTTP only",
                ),
            ),
        );
    }
    Ok(())
}

/// The number of `c` characters in `s`.
pub open spec fn count_char(s: Seq<char>, c: char) -> int
    decreases s.len(),
{
    if s.len() == 0 {
        0
    } else {
        count_char(s.drop_last(), c) + if s.last() == c {
            1int
        } else {
            0int
        }
    }
}

/// A bounded ASCII account email with exactly one `@`.
pub open spec fn account_email_ok(e: Seq<char>) -> bool {
    &&& 1 <= utf8(e).len() <= 254
    &&& forall|k: int| 0 <= k < utf8(e).len() ==> #[trigger] utf8(e)[k] < 0x80
    &&& !has_cc(e)
    &&& count_char(e, '@') == 1
}

fn account_email_valid(e: &str) -> (r: bool)
    ensures
        r == account_email_ok(e@),
{
    let b = e.as_bytes();
    if b.len() == 0 || b.len() > 254 {
        return false;
    }
    let mut i: usize = 0;
    while i < b.len()
        invariant
            b@ == utf8(e@),
            i <= b@.len(),
            forall|k: int| 0 <= k < i ==> #[trigger] b@[k] < 0x80,
        decreases b@.len() - i,
    {
        if b[i] >= 0x80 {
            return false;
        }
        i += 1;
    }
    let c = str_chars(e);
    let mut ats: usize = 0;
    let mut control = false;
    let mut i: usize = 0;
    while i < c.len()
        invariant
            c@ == e@,
            i <= c@.len(),
            ats == count_char(c@.take(i as int), '@'),
            ats <= i,
            control == exists|k: int| 0 <= k < i && crate::platform::is_cc(#[trigger] c@[k]),
        decreases c@.len() - i,
    {
        assert(c@.take(i + 1).drop_last() =~= c@.take(i as int));
        let u = c[i] as u32;
        if u <= 0x1f || (0x7f <= u && u <= 0x9f) {
            control = true;
        }
        if c[i] == '@' {
            ats += 1;
        }
        i += 1;
    }
    assert(c@.take(c@.len() as int) =~= c@);
    !control && ats == 1
}

/// Issuer `i`: valid unique ID, directory, contact, CA bundle, external
/// account binding and an order limit within the global one.
pub open spec fn issuer_entry_ok(issuers: Seq<AcmeIssuerConfig>, i: int, global_max: usize) -> bool {
    let x = issuers[i];
    &&& id_ok(utf8(x.id@))
    &&& forall|j: int| 0 <= j < i ==> (#[trigger] issuers[j]).id@ != x.id@
    &&& acme_directory_ok(x)
    &&& match x.account_email {
        Some(e) => account_email_ok(e@),
        None => true,
    }
    &&& match x.ca_bundle {
        Some(c) => secret_ref_ok(utf8(c@)),
        None => true,
    }
    &&& match x.external_account {
        Some(ea) => bounded_label(ea.key_id@, 256) && secret_ref_ok(utf8(ea.hmac_key@)),
        None => true,
    }
    &&& 1 <= x.max_concurrent_orders <= global_max
}

pub open spec fn zone_id_ok(b: Seq<u8>) -> bool {
    b.len() == 32 && forall|k: int|
        0 <= k < b.len() ==> is_digit(#[trigger] b[k]) || (0x61 <= b[k] <= 0x66)
}

/// DNS provider `i`: valid unique ID, a 32-digit lowercase hex zone and a
/// token reference.
pub open spec fn dns_entry_ok(ps: Seq<AcmeDnsProviderConfig>, i: int) -> bool {
    let p = ps[i];
    &&& id_ok(utf8(p.spec_id()))
    &&& forall|j: int| 0 <= j < i ==> (#[trigger] ps[j]).spec_id() != p.spec_id()
    &&& match p {
        AcmeDnsProviderConfig::Cloudflare { zone_id, api_token, .. } => zone_id_ok(
            utf8(zone_id@),
        ) && secret_ref_ok(utf8(api_token@)),
    }
}

/// The first listener named `name`.
pub open spec fn find_listener(ls: Seq<ListenerConfig>, name: Seq<char>) -> Option<ListenerConfig>
    decreases ls.len(),
{
    if ls.len() == 0 {
        None
    } else if ls[0].id@ == name {
        Some(ls[0])
    } else {
        find_listener(ls.drop_first(), name)
    }
}

/// DNS-01 names a known DNS provider and no listener; HTTP-01 and
/// TLS-ALPN-01 name an existing `http` or `https` listener and no provider.
pub open spec fn challenge_ok(
    c: Config,
    cert: AcmeCertificateConfig,
    provider_ids: Seq<String>,
) -> bool {
    match cert.challenge {
        AcmeChallenge::Dns01 => {
            &&& cert.challenge_listener is None
            &&& cert.dns_provider is Some
            &&& contains_string(provider_ids, cert.dns_provider->0@)
        },
        _ => {
            &&& cert.dns_provider is None
            &&& cert.challenge_listener is Some
            &&& find_listener(c.listeners@, cert.challenge_listener->0@) is Some
            &&& find_listener(c.listeners@, cert.challenge_listener->0@)->0.protocol@ == if cert.challenge
                == AcmeChallenge::Http01 {
                "http"@
            } else {
                "https"@
            }
        },
    }
}

pub fn first_listener<'a>(ls: &'a Vec<ListenerConfig>, name: &str) -> (r: Option<&'a ListenerConfig>)
    ensures
        r is Some <==> find_listener(ls@, name@) is Some,
        r matches Some(l) ==> *l == find_listener(ls@, name@)->0,
{
    let mut i: usize = 0;
    assert(ls@.skip(0) =~= ls@);
    while i < ls.len()
        invariant
            i <= ls@.len(),
            find_listener(ls@, name@) == find_listener(ls@.skip(i as int), name@),
        decreases ls@.len() - i,
    {
        assert(ls@.skip(i as int).drop_first() =~= ls@.skip(i + 1));
        assert(ls@.skip(i as int)[0] == ls@[i as int]);
        if str_eq(ls[i].id.as_str(), name) {
            return Some(&ls[i]);
        }
        i += 1;
    }
    assert(ls@.skip(i as int).len() == 0);
    None
}

/// Validates a managed certificate's challenge settings.
pub fn validate_acme_challenge(
    config: &Config,
    certificate: &AcmeCertificateConfig,
    provider_ids: &Vec<String>,
) -> (r: Result<(), ConfigError>)
    ensures
        r is Ok <==> challenge_ok(*config, *certificate, provider_ids@),
        match challenge_error(*config, *certificate, provider_ids@) {
            Some(m) => r matches Err(ConfigError::Invalid(e)) && e@ == m,
            None => r is Ok,
        },
{
    let id = certificate.id.as_str();
    match certificate.challenge {
        AcmeChallenge::Dns01 => {
            if certificate.challenge_listener.is_some() {
                return Err(
                    ConfigError::Invalid(
                        join3("ACME certificate ", id, " dns-01 cannot set challenge_listener"),
                    ),
                );
            }
            let provider = match &certificate.dns_provider {
                Some(p) => p.as_str(),
                None => {
                    return Err(
                        ConfigError::Invalid(
                            join3("ACME certificate ", id, " dns-01 requires dns_provider"),
                        ),
                    );
                },
            };
            if !vec_contains_str(provider_ids, provider) {
                let what = join3(id, " references unknown DNS provider ", provider);
                return Err(ConfigError::Invalid(join2("ACME certificate ", what.as_str())));
            }
            Ok(())
        },
        _ => {
            if certificate.dns_provider.is_some() {
                return Err(
                    ConfigError::Invalid(
                        join3("ACME certificate ", id, " non-DNS challenge cannot set dns_provider"),
                    ),
                );
            }
            let listener_id = match &certificate.challenge_listener {
                Some(l) => l.as_str(),
                None => {
                    return Err(
                        ConfigError::Invalid(
                            join3("ACME certificate ", id, " requires challenge_listener"),
                        ),
                    );
                },
            };
            let listener = match first_listener(&config.listeners, listener_id) {
                Some(l) => l,
                None => {
                    let what = join3(id, " references unknown challenge listener ", listener_id);
                    return Err(ConfigError::Invalid(join2("ACME certificate ", what.as_str())));
                },
            };
            let expected = if certificate.challenge == AcmeChallenge::Http01 {
                "http"
            } else {
                "https"
            };
            if !str_eq(listener.protocol.as_str(), expected) {
                return Err(
                    ConfigError::Invalid(
                        join4("ACME certificate ", id, " challenge listener must use ", expected),
                    ),
                );
            }
            Ok(())
        },
    }
}


/// All hosts of `certs`, in order.
pub open spec fn flat_hosts(certs: Seq<AcmeCertificateConfig>) -> Seq<String>
    decreases certs.len(),
{
    if certs.len() == 0 {
        Seq::empty()
    } else {
        flat_hosts(certs.drop_last()) + certs.last().hosts@
    }
}

/// The IDs of `certs`, in order.
pub open spec fn cert_id_strings(certs: Seq<AcmeCertificateConfig>) -> Seq<String> {
    certs.map_values(|x: AcmeCertificateConfig| x.id)
}

/// The IDs of the DNS providers, in order.
pub open spec fn dns_id_strings(ps: Seq<AcmeDnsProviderConfig>) -> Seq<String> {
    ps.map_values(
        |p: AcmeDnsProviderConfig|
            match p {
                AcmeDnsProviderConfig::Cloudflare { id, .. } => id,
            },
    )
}

/// Host `k` of `x` is a valid certificate host not assigned before (in
/// `prior` or earlier in `x`), and a wildcard only with DNS-01.
pub open spec fn acme_host_ok(x: AcmeCertificateConfig, k: int, prior: Seq<String>) -> bool {
    let h = x.hosts@[k];
    &&& cert_host_ok(utf8(h@))
    &&& !contains_string(prior + x.hosts@.take(k), h@)
    &&& (starts_with(utf8(h@), seq![0x2au8, 0x2eu8]) ==> x.challenge == AcmeChallenge::Dns01)
}

pub open spec fn profile_byte(b: u8) -> bool {
    is_alnum(b) || b == 0x2d || b == 0x5f || b == 0x2e
}

pub open spec fn profile_ok(p: Seq<char>) -> bool {
    1 <= utf8(p).len() <= 64 && forall|k: int|
        0 <= k < utf8(p).len() ==> profile_byte(#[trigger] utf8(p)[k])
}

/// A managed certificate: valid ID not in `prior_ids`, 1..=64 hosts not in
/// `prior_hosts`, a known issuer whose terms were agreed, valid challenge
/// settings, a valid profile and a 1..=90 day renewal window.
pub open spec fn cert_entry_core(
    c: Config,
    x: AcmeCertificateConfig,
    prior_ids: Seq<String>,
    prior_hosts: Seq<String>,
) -> bool {
    let issuers = c.acme.issuers@;
    &&& id_ok(utf8(x.id@))
    &&& !contains_string(prior_ids, x.id@)
    &&& 1 <= x.hosts@.len() <= 64
    &&& forall|k: int| 0 <= k < x.hosts@.len() ==> #[trigger] acme_host_ok(x, k, prior_hosts)
    &&& exists|j: int| 0 <= j < issuers.len() && (#[trigger] issuers[j]).id@ == x.issuer@
    &&& forall|j: int|
        0 <= j < issuers.len() && (#[trigger] issuers[j]).id@ == x.issuer@
            ==> issuers[j].terms_of_service_agreed
    &&& challenge_ok(c, x, dns_id_strings(c.acme.dns_providers@))
    &&& match x.profile {
        Some(p) => profile_ok(p@),
        None => true,
    }
    &&& 1 <= x.renew_before_days <= 90
}

/// Managed certificate `i`, checked against the IDs and hosts used by static
/// certificates and by the managed certificates before it.
pub open spec fn cert_entry_ok(c: Config, i: int, ids0: Seq<String>, hosts0: Seq<String>) -> bool {
    let certs = c.acme.certificates@;
    cert_entry_core(
        c,
        certs[i],
        ids0 + cert_id_strings(certs.take(i)),
        hosts0 + flat_hosts(certs.take(i)),
    )
}

/// Every ACME rule, given the certificate IDs and hosts that static
/// certificates already use.
pub open spec fn acme_ok(c: Config, ids0: Seq<String>, hosts0: Seq<String>) -> bool {
    let a = c.acme;
    &&& 1 <= a.max_concurrent_orders <= 32
    &&& match a.renewal_owner {
        Some(o) => id_ok(utf8(o@)),
        None => true,
    }
    &&& a.issuers@.len() <= MAX_ACME_ISSUERS
    &&& a.certificates@.len() <= MAX_ACME_CERTIFICATES
    &&& a.dns_providers@.len() <= MAX_ACME_DNS_PROVIDERS
    &&& c.certificates@.len() + a.certificates@.len() <= MAX_ACME_CERTIFICATES
    &&& forall|i: int|
        0 <= i < a.issuers@.len() ==> #[trigger] issuer_entry_ok(
            a.issuers@,
            i,
            a.max_concurrent_orders,
        )
    &&& forall|i: int| 0 <= i < a.dns_providers@.len() ==> #[trigger] dns_entry_ok(a.dns_providers@, i)
    &&& forall|i: int|
        0 <= i < a.certificates@.len() ==> #[trigger] cert_entry_ok(c, i, ids0, hosts0)
    &&& (a.certificates@.len() > 0 ==> {
        &&& c.tls.identity is Some
        &&& 1 <= c.tls.state_encryption_recipients@.len() <= 8
        &&& forall|k: int|
            0 <= k < c.tls.state_encryption_recipients@.len() ==> age_recipient_accepted(
                (#[trigger] c.tls.state_encryption_recipients@[k])@,
            )
    })
}

/// The message of the first directory URL rule that `issuer` breaks.
pub open spec fn directory_error(issuer: AcmeIssuerConfig) -> Option<Seq<char>> {
    let u = issuer.directory_url@;
    if !(u.username.len() == 0 && !u.has_password && u.query is None && u.fragment is None
        && u.host is Some) {
        Some(
            "ACME issuer "@ + issuer.id@ + " directory_url contains forbidden URL components"@,
        )
    } else if !acme_directory_ok(issuer) {
        Some(
            "ACME issuer "@ + issuer.id@
                + " directory_url must use HTTPS; staging permits loopback HTTP only"@,
        )
    } else {
        None
    }
}

/// The message of the first rule that issuer `i` breaks.
pub open spec fn issuer_error(issuers: Seq<AcmeIssuerConfig>, i: int, global_max: usize) -> Option<
    Seq<char>,
> {
    let x = issuers[i];
    let id = x.id@;
    if !id_ok(utf8(id)) {
        Some(id_message(id))
    } else if exists|j: int| 0 <= j < i && (#[trigger] issuers[j]).id@ == id {
        Some("duplicate ACME issuer id "@ + id)
    } else if directory_error(x) is Some {
        directory_error(x)
    } else if x.account_email is Some && !account_email_ok(x.account_email->0@) {
        Some("ACME issuer "@ + id + " has an invalid account_email"@)
    } else if x.ca_bundle is Some && !secret_ref_ok(utf8(x.ca_bundle->0@)) {
        Some("ACME issuer "@ + id + " has an invalid ca_bundle secret reference"@)
    } else if x.external_account is Some && !bounded_label(x.external_account->0.key_id@, 256) {
        Some("ACME issuer "@ + id + " has an invalid external account key ID"@)
    } else if x.external_account is Some && !secret_ref_ok(
        utf8(x.external_account->0.hmac_key@),
    ) {
        Some("ACME issuer "@ + id + " has an invalid external account HMAC secret reference"@)
    } else if !(1 <= x.max_concurrent_orders <= global_max) {
        Some("ACME issuer "@ + id + " order limit exceeds the global bound"@)
    } else {
        None
    }
}

/// The first issuer error from position `i` on.
pub open spec fn issuers_error(issuers: Seq<AcmeIssuerConfig>, global_max: usize, i: int) -> Option<
    Seq<char>,
>
    decreases issuers.len() - i,
{
    if 0 <= i < issuers.len() {
        match issuer_error(issuers, i, global_max) {
            Some(m) => Some(m),
            None => issuers_error(issuers, global_max, i + 1),
        }
    } else {
        None
    }
}

/// The message of the first rule that DNS provider `i` breaks.
pub open spec fn dns_error(ps: Seq<AcmeDnsProviderConfig>, i: int) -> Option<Seq<char>> {
    let id = ps[i].spec_id();
    if !id_ok(utf8(id)) {
        Some(id_message(id))
    } else if exists|j: int| 0 <= j < i && (#[trigger] ps[j]).spec_id() == id {
        Some("duplicate ACME DNS provider id "@ + id)
    } else {
        match ps[i] {
            AcmeDnsProviderConfig::Cloudflare { zone_id, api_token, .. } => {
                if !zone_id_ok(utf8(zone_id@)) {
                    Some("ACME DNS provider "@ + id + " has an invalid Cloudflare zone_id"@)
                } else if !secret_ref_ok(utf8(api_token@)) {
                    Some("ACME DNS provider "@ + id + " has an invalid api_token secret reference"@)
                } else {
                    None
                }
            },
        }
    }
}

/// The first DNS provider error from position `i` on.
pub open spec fn dns_errors(ps: Seq<AcmeDnsProviderConfig>, i: int) -> Option<Seq<char>>
    decreases ps.len() - i,
{
    if 0 <= i < ps.len() {
        match dns_error(ps, i) {
            Some(m) => Some(m),
            None => dns_errors(ps, i + 1),
        }
    } else {
        None
    }
}

/// The message of the first challenge rule that `cert` breaks.
pub open spec fn challenge_error(
    c: Config,
    cert: AcmeCertificateConfig,
    provider_ids: Seq<String>,
) -> Option<Seq<char>> {
    let id = cert.id@;
    match cert.challenge {
        AcmeChallenge::Dns01 => {
            if cert.challenge_listener is Some {
                Some("ACME certificate "@ + id + " dns-01 cannot set challenge_listener"@)
            } else if cert.dns_provider is None {
                Some("ACME certificate "@ + id + " dns-01 requires dns_provider"@)
            } else if !contains_string(provider_ids, cert.dns_provider->0@) {
                Some(
                    "ACME certificate "@ + (id + " references unknown DNS provider "@
                        + cert.dns_provider->0@),
                )
            } else {
                None
            }
        },
        _ => {
            let expected = if cert.challenge == AcmeChallenge::Http01 {
                "http"@
            } else {
                "https"@
            };
            if cert.dns_provider is Some {
                Some("ACME certificate "@ + id + " non-DNS challenge cannot set dns_provider"@)
            } else if cert.challenge_listener is None {
                Some("ACME certificate "@ + id + " requires challenge_listener"@)
            } else if find_listener(c.listeners@, cert.challenge_listener->0@) is None {
                Some(
                    "ACME certificate "@ + (id + " references unknown challenge listener "@
                        + cert.challenge_listener->0@),
                )
            } else if find_listener(c.listeners@, cert.challenge_listener->0@)->0.protocol@
                != expected {
                Some("ACME certificate "@ + id + " challenge listener must use "@ + expected)
            } else {
                None
            }
        },
    }
}

/// The message of the first rule that host `k` of `x` breaks.
pub open spec fn host_error(x: AcmeCertificateConfig, k: int, prior: Seq<String>) -> Option<
    Seq<char>,
> {
    let h = x.hosts@[k]@;
    if !cert_host_ok(utf8(h)) {
        Some(cert_host_message(h))
    } else if contains_string(prior + x.hosts@.take(k), h) {
        Some("certificate host "@ + h + " is assigned more than once"@)
    } else if starts_with(utf8(h), seq![0x2au8, 0x2eu8]) && x.challenge != AcmeChallenge::Dns01 {
        Some("ACME wildcard "@ + h + " requires dns-01"@)
    } else {
        None
    }
}

/// The first host error of `x` from position `k` on.
pub open spec fn hosts_error(x: AcmeCertificateConfig, prior: Seq<String>, k: int) -> Option<
    Seq<char>,
>
    decreases x.hosts@.len() - k,
{
    if 0 <= k < x.hosts@.len() {
        match host_error(x, k, prior) {
            Some(m) => Some(m),
            None => hosts_error(x, prior, k + 1),
        }
    } else {
        None
    }
}

/// The message of the first rule that managed certificate `x` breaks.
#[verifier::opaque]
pub open spec fn cert_error(
    c: Config,
    x: AcmeCertificateConfig,
    prior_ids: Seq<String>,
    prior_hosts: Seq<String>,
) -> Option<Seq<char>> {
    let issuers = c.acme.issuers@;
    let id = x.id@;
    if !id_ok(utf8(id)) {
        Some(id_message(id))
    } else if contains_string(prior_ids, id) {
        Some("duplicate certificate id "@ + id)
    } else if !(1 <= x.hosts@.len() <= 64) {
        Some("ACME certificate "@ + id + " must contain 1..=64 hosts"@)
    } else if hosts_error(x, prior_hosts, 0) is Some {
        hosts_error(x, prior_hosts, 0)
    } else if !(exists|j: int| 0 <= j < issuers.len() && (#[trigger] issuers[j]).id@ == x.issuer@) {
        Some("ACME certificate "@ + id + " references unknown issuer "@ + x.issuer@)
    } else if !(forall|j: int|
        0 <= j < issuers.len() && (#[trigger] issuers[j]).id@ == x.issuer@
            ==> issuers[j].terms_of_service_agreed) {
        Some("ACME issuer "@ + x.issuer@ + " requires explicit terms_of_service_agreed = true"@)
    } else if challenge_error(c, x, dns_id_strings(c.acme.dns_providers@)) is Some {
        challenge_error(c, x, dns_id_strings(c.acme.dns_providers@))
    } else if x.profile is Some && !profile_ok(x.profile->0@) {
        Some("ACME certificate "@ + id + " has an invalid profile"@)
    } else if !(1 <= x.renew_before_days <= 90) {
        Some("ACME certificate "@ + id + " renew_before_days is outside 1..=90"@)
    } else {
        None
    }
}

/// A host error of a certificate whose ID and host count are valid is the
/// certificate's error.
proof fn lemma_host_error_is_cert_error(
    c: Config,
    x: AcmeCertificateConfig,
    prior_ids: Seq<String>,
    prior_hosts: Seq<String>,
)
    requires
        id_ok(utf8(x.id@)),
        !contains_string(prior_ids, x.id@),
        1 <= x.hosts@.len() <= 64,
        hosts_error(x, prior_hosts, 0) is Some,
    ensures
        cert_error(c, x, prior_ids, prior_hosts) == hosts_error(x, prior_hosts, 0),
{
    reveal(cert_error);
}

/// The first managed certificate error from position `i` on.
pub open spec fn certs_error(c: Config, ids0: Seq<String>, hosts0: Seq<String>, i: int) -> Option<
    Seq<char>,
>
    decreases c.acme.certificates@.len() - i,
{
    let certs = c.acme.certificates@;
    if 0 <= i < certs.len() {
        match cert_error(
            c,
            certs[i],
            ids0 + cert_id_strings(certs.take(i)),
            hosts0 + flat_hosts(certs.take(i)),
        ) {
            Some(m) => Some(m),
            None => certs_error(c, ids0, hosts0, i + 1),
        }
    } else {
        None
    }
}

/// The message of the first ACME rule that `c` breaks, given the IDs and
/// hosts of static certificates; `None` when every rule holds.
pub open spec fn acme_error(c: Config, ids0: Seq<String>, hosts0: Seq<String>) -> Option<
    Seq<char>,
> {
    let a = c.acme;
    let recipients = c.tls.state_encryption_recipients@;
    if !(1 <= a.max_concurrent_orders <= 32) {
        Some("acme.max_concurrent_orders is outside 1..=32"@)
    } else if a.renewal_owner is Some && !id_ok(utf8(a.renewal_owner->0@)) {
        Some(id_message(a.renewal_owner->0@))
    } else if !(a.issuers@.len() <= MAX_ACME_ISSUERS && a.certificates@.len()
        <= MAX_ACME_CERTIFICATES && a.dns_providers@.len() <= MAX_ACME_DNS_PROVIDERS
        && c.certificates@.len() + a.certificates@.len() <= MAX_ACME_CERTIFICATES) {
        Some("ACME issuer, certificate, or DNS provider count exceeds its bound"@)
    } else if issuers_error(a.issuers@, a.max_concurrent_orders, 0) is Some {
        issuers_error(a.issuers@, a.max_concurrent_orders, 0)
    } else if dns_errors(a.dns_providers@, 0) is Some {
        dns_errors(a.dns_providers@, 0)
    } else if certs_error(c, ids0, hosts0, 0) is Some {
        certs_error(c, ids0, hosts0, 0)
    } else if a.certificates@.len() > 0 && c.tls.identity is None {
        Some("tls.identity is required for encrypted ACME state"@)
    } else if a.certificates@.len() > 0 && !(1 <= recipients.len() <= 8) {
        Some("tls.state_encryption_recipients must contain 1..=8 recipients for ACME"@)
    } else if a.certificates@.len() > 0 && exists|k: int|
        0 <= k < recipients.len() && !age_recipient_accepted((#[trigger] recipients[k])@) {
        Some("tls.state_encryption_recipients is invalid"@)
    } else {
        None
    }
}

fn check_issuer(issuers: &Vec<AcmeIssuerConfig>, i: usize, global_max: usize) -> (r: Result<
    (),
    ConfigError,
>)
    requires
        i < issuers@.len(),
    ensures
        r is Ok <==> issuer_entry_ok(issuers@, i as int, global_max),
        match issuer_error(issuers@, i as int, global_max) {
            Some(m) => r matches Err(ConfigError::Invalid(e)) && e@ == m,
            None => r is Ok,
        },
{
    let issuer = &issuers[i];
    let id = issuer.id.as_str();
    match valid_id(id) {
        Ok(()) => {},
        Err(e) => {
            return Err(e);
        },
    }
    let mut j: usize = 0;
    while j < i
        invariant
            i < issuers@.len(),
            j <= i,
            id@ == issuers@[i as int].id@,
            forall|k: int| 0 <= k < j ==> (#[trigger] issuers@[k]).id@ != id@,
            id_ok(utf8(id@)),
        decreases i - j,
    {
        if str_eq(issuers[j].id.as_str(), id) {
            return Err(ConfigError::Invalid(join2("duplicate ACME issuer id ", id)));
        }
        j += 1;
    }
    match validate_acme_directory(issuer) {
        Ok(()) => {},
        Err(e) => {
            return Err(e);
        },
    }
    match &issuer.account_email {
        Some(email) => {
            if !account_email_valid(email.as_str()) {
                return Err(
                    ConfigError::Invalid(join3("ACME issuer ", id, " has an invalid account_email")),
                );
            }
        },
        None => {},
    }
    match &issuer.ca_bundle {
        Some(ca) => {
            if !secret_ref_valid(ca.as_str()) {
                return Err(
                    ConfigError::Invalid(
                        join3("ACME issuer ", id, " has an invalid ca_bundle secret reference"),
                    ),
                );
            }
        },
        None => {},
    }
    match &issuer.external_account {
        Some(external) => {
            let key = external.key_id.as_str();
            let n = key.as_bytes().len();
            if n == 0 || n > 256 || crate::platform::text_has_control(key) {
                return Err(
                    ConfigError::Invalid(
                        join3("ACME issuer ", id, " has an invalid external account key ID"),
                    ),
                );
            }
            if !secret_ref_valid(external.hmac_key.as_str()) {
                return Err(
                    ConfigError::Invalid(
                        join3(
                            "ACME issuer ",
                            id,
                            " has an invalid external account HMAC secret reference",
                        ),
                    ),
                );
            }
        },
        None => {},
    }
    if issuer.max_concurrent_orders == 0 || issuer.max_concurrent_orders > global_max {
        return Err(
            ConfigError::Invalid(
                join3("ACME issuer ", id, " order limit exceeds the global bound"),
            ),
        );
    }
    Ok(())
}

fn zone_id_valid(z: &str) -> (r: bool)
    ensures
        r == zone_id_ok(utf8(z@)),
{
    let b = z.as_bytes();
    if b.len() != 32 {
        return false;
    }
    let mut i: usize = 0;
    while i < b.len()
        invariant
            b@ == utf8(z@),
            b@.len() == 32,
            i <= b@.len(),
            forall|k: int| 0 <= k < i ==> is_digit(#[trigger] b@[k]) || (0x61 <= b@[k] <= 0x66),
        decreases b@.len() - i,
    {
        if !(byte_is_digit(b[i]) || (0x61 <= b[i] && b[i] <= 0x66)) {
            return false;
        }
        i += 1;
    }
    true
}

fn check_dns_provider(ps: &Vec<AcmeDnsProviderConfig>, i: usize) -> (r: Result<(), ConfigError>)
    requires
        i < ps@.len(),
    ensures
        r is Ok <==> dns_entry_ok(ps@, i as int),
        match dns_error(ps@, i as int) {
            Some(m) => r matches Err(ConfigError::Invalid(e)) && e@ == m,
            None => r is Ok,
        },
{
    let p = &ps[i];
    let id = p.id();
    match valid_id(id) {
        Ok(()) => {},
        Err(e) => {
            return Err(e);
        },
    }
    let mut j: usize = 0;
    while j < i
        invariant
            i < ps@.len(),
            j <= i,
            id@ == ps@[i as int].spec_id(),
            forall|k: int| 0 <= k < j ==> (#[trigger] ps@[k]).spec_id() != id@,
            id_ok(utf8(id@)),
        decreases i - j,
    {
        if str_eq(ps[j].id(), id) {
            return Err(ConfigError::Invalid(join2("duplicate ACME DNS provider id ", id)));
        }
        j += 1;
    }
    match p {
        AcmeDnsProviderConfig::Cloudflare { id, zone_id, api_token } => {
            if !zone_id_valid(zone_id.as_str()) {
                return Err(
                    ConfigError::Invalid(
                        join3("ACME DNS provider ", id.as_str(), " has an invalid Cloudflare zone_id"),
                    ),
                );
            }
            if !secret_ref_valid(api_token.as_str()) {
                return Err(
                    ConfigError::Invalid(
                        join3(
                            "ACME DNS provider ",
                            id.as_str(),
                            " has an invalid api_token secret reference",
                        ),
                    ),
                );
            }
            Ok(())
        },
    }
}

fn profile_valid(p: &str) -> (r: bool)
    ensures
        r == profile_ok(p@),
{
    let b = p.as_bytes();
    if b.len() == 0 || b.len() > 64 {
        return false;
    }
    let mut i: usize = 0;
    while i < b.len()
        invariant
            b@ == utf8(p@),
            i <= b@.len(),
            forall|k: int| 0 <= k < i ==> profile_byte(#[trigger] b@[k]),
        decreases b@.len() - i,
    {
        let c = b[i];
        if !(byte_is_alnum(c) || c == 0x2d || c == 0x5f || c == 0x2e) {
            assert(!profile_byte(b@[i as int]));
            return false;
        }
        i += 1;
    }
    true
}


fn issuer_known_and_agreed(issuers: &Vec<AcmeIssuerConfig>, name: &str) -> (r: (bool, bool))
    ensures
        r.0 == exists|j: int| 0 <= j < issuers@.len() && (#[trigger] issuers@[j]).id@ == name@,
        r.1 == forall|j: int|
            0 <= j < issuers@.len() && (#[trigger] issuers@[j]).id@ == name@
                ==> issuers@[j].terms_of_service_agreed,
{
    let mut known = false;
    let mut agreed = true;
    let mut j: usize = 0;
    while j < issuers.len()
        invariant
            j <= issuers@.len(),
            known == exists|k: int| 0 <= k < j && (#[trigger] issuers@[k]).id@ == name@,
            agreed == forall|k: int|
                0 <= k < j && (#[trigger] issuers@[k]).id@ == name@
                    ==> issuers@[k].terms_of_service_agreed,
        decreases issuers@.len() - j,
    {
        if str_eq(issuers[j].id.as_str(), name) {
            known = true;
            if !issuers[j].terms_of_service_agreed {
                agreed = false;
            }
        }
        j += 1;
    }
    (known, agreed)
}

/// Checks host `k` of `certificate` against the hosts in `used`, and on
/// success adds it to them.
fn check_host(
    certificate: &AcmeCertificateConfig,
    k: usize,
    used: &mut Vec<String>,
    Ghost(prior): Ghost<Seq<String>>,
) -> (r: Result<(), ConfigError>)
    requires
        k < certificate.hosts@.len(),
        old(used)@ == prior + certificate.hosts@.take(k as int),
    ensures
        r is Ok <==> acme_host_ok(*certificate, k as int, prior),
        match host_error(*certificate, k as int, prior) {
            Some(m) => r matches Err(ConfigError::Invalid(e)) && e@ == m,
            None => r is Ok,
        },
        r is Ok ==> final(used)@ == old(used)@.push(certificate.hosts@[k as int]),
{
    let wild: [u8; 2] = [0x2a, 0x2e];
    assert(wild@ =~= seq![0x2au8, 0x2eu8]);
    let host = certificate.hosts[k].as_str();
    match valid_certificate_host(host) {
        Ok(()) => {},
        Err(e) => {
            return Err(e);
        },
    }
    if vec_contains_str(used, host) {
        return Err(
            ConfigError::Invalid(join3("certificate host ", host, " is assigned more than once")),
        );
    }
    if slice_starts_with(host.as_bytes(), wild.as_slice()) && certificate.challenge
        != AcmeChallenge::Dns01 {
        return Err(ConfigError::Invalid(join3("ACME wildcard ", host, " requires dns-01")));
    }
    used.push(certificate.hosts[k].clone());
    Ok(())
}

fn check_certificate(
    config: &Config,
    i: usize,
    provider_ids: &Vec<String>,
    certificate_ids: &mut Vec<String>,
    certificate_hosts: &mut Vec<String>,
) -> (r: Result<(), ConfigError>)
    requires
        i < config.acme.certificates@.len(),
        provider_ids@ == dns_id_strings(config.acme.dns_providers@),
    ensures
        r is Ok <==> cert_entry_core(
            *config,
            config.acme.certificates@[i as int],
            old(certificate_ids)@,
            old(certificate_hosts)@,
        ),
        match cert_error(
            *config,
            config.acme.certificates@[i as int],
            old(certificate_ids)@,
            old(certificate_hosts)@,
        ) {
            Some(m) => r matches Err(ConfigError::Invalid(e)) && e@ == m,
            None => r is Ok,
        },
        r is Ok ==> final(certificate_ids)@ == old(certificate_ids)@ + seq![
            config.acme.certificates@[i as int].id,
        ],
        r is Ok ==> final(certificate_hosts)@ == old(certificate_hosts)@
            + config.acme.certificates@[i as int].hosts@,
{
    reveal(cert_error);
    let ghost ids0 = certificate_ids@;
    let ghost hosts0 = certificate_hosts@;
    let certificate = &config.acme.certificates[i];
    let id = certificate.id.as_str();
    match valid_id(id) {
        Ok(()) => {},
        Err(e) => {
            return Err(e);
        },
    }
    if vec_contains_str(certificate_ids, id) {
        return Err(ConfigError::Invalid(join2("duplicate certificate id ", id)));
    }
    certificate_ids.push(certificate.id.clone());
    if certificate.hosts.len() == 0 || certificate.hosts.len() > 64 {
        return Err(
            ConfigError::Invalid(join3("ACME certificate ", id, " must contain 1..=64 hosts")),
        );
    }
    let mut k: usize = 0;
    while k < certificate.hosts.len()
        invariant
            i < config.acme.certificates@.len(),
            *certificate == config.acme.certificates@[i as int],
            hosts0 == old(certificate_hosts)@,
            ids0 == old(certificate_ids)@,
            k <= certificate.hosts@.len(),
            certificate_hosts@ == hosts0 + certificate.hosts@.take(k as int),
            forall|m: int| 0 <= m < k ==> #[trigger] acme_host_ok(*certificate, m, hosts0),
            hosts_error(*certificate, hosts0, 0) == hosts_error(*certificate, hosts0, k as int),
            id_ok(utf8(certificate.id@)),
            !contains_string(ids0, certificate.id@),
            1 <= certificate.hosts@.len() <= 64,
        decreases certificate.hosts@.len() - k,
    {
        proof {
            if host_error(*certificate, k as int, hosts0) is Some {
                assert(hosts_error(*certificate, hosts0, k as int) == host_error(
                    *certificate,
                    k as int,
                    hosts0,
                ));
                lemma_host_error_is_cert_error(*config, *certificate, ids0, hosts0);
            }
        }
        match check_host(certificate, k, certificate_hosts, Ghost(hosts0)) {
            Ok(()) => {},
            Err(e) => {
                return Err(e);
            },
        }
        assert(certificate.hosts@.take(k + 1) =~= certificate.hosts@.take(k as int).push(
            certificate.hosts@[k as int],
        ));
        k += 1;
    }
    assert(certificate.hosts@.take(certificate.hosts@.len() as int) =~= certificate.hosts@);
    let (known, agreed) = issuer_known_and_agreed(&config.acme.issuers, certificate.issuer.as_str());
    if !known {
        return Err(
            ConfigError::Invalid(
                join4("ACME certificate ", id, " references unknown issuer ", certificate.issuer.as_str()),
            ),
        );
    }
    if !agreed {
        return Err(
            ConfigError::Invalid(
                join3(
                    "ACME issuer ",
                    certificate.issuer.as_str(),
                    " requires explicit terms_of_service_agreed = true",
                ),
            ),
        );
    }
    match validate_acme_challenge(config, certificate, provider_ids) {
        Ok(()) => {},
        Err(e) => {
            return Err(e);
        },
    }
    match &certificate.profile {
        Some(profile) => {
            if !profile_valid(profile.as_str()) {
                return Err(
                    ConfigError::Invalid(join3("ACME certificate ", id, " has an invalid profile")),
                );
            }
        },
        None => {},
    }
    if certificate.renew_before_days == 0 || certificate.renew_before_days > 90 {
        return Err(
            ConfigError::Invalid(
                join3("ACME certificate ", id, " renew_before_days is outside 1..=90"),
            ),
        );
    }
    Ok(())
}


/// Validates ACME settings. `certificate_ids` and `certificate_hosts` hold
/// the IDs and hosts that static certificates use; on success the managed
/// certificates' IDs and hosts are appended to them.
#[verifier::loop_isolation(false)]
pub fn validate_acme(
    config: &Config,
    certificate_ids: &mut Vec<String>,
    certificate_hosts: &mut Vec<String>,
) -> (r: Result<(), ConfigError>)
    ensures
        r is Ok <==> acme_ok(*config, old(certificate_ids)@, old(certificate_hosts)@),
        match acme_error(*config, old(certificate_ids)@, old(certificate_hosts)@) {
            Some(m) => r matches Err(ConfigError::Invalid(e)) && e@ == m,
            None => r is Ok,
        },
        r is Ok ==> final(certificate_ids)@ == old(certificate_ids)@ + cert_id_strings(
            config.acme.certificates@,
        ),
        r is Ok ==> final(certificate_hosts)@ == old(certificate_hosts)@ + flat_hosts(
            config.acme.certificates@,
        ),
{
    let ghost ids0 = certificate_ids@;
    let ghost hosts0 = certificate_hosts@;
    let acme = &config.acme;
    if acme.max_concurrent_orders == 0 || acme.max_concurrent_orders > 32 {
        return Err(ConfigError::invalid("acme.max_concurrent_orders is outside 1..=32"));
    }
    match &acme.renewal_owner {
        Some(owner) => {
            match valid_id(owner.as_str()) {
                Ok(()) => {},
                Err(e) => {
                    return Err(e);
                },
            }
        },
        None => {},
    }
    if acme.issuers.len() > MAX_ACME_ISSUERS || acme.certificates.len() > MAX_ACME_CERTIFICATES
        || acme.dns_providers.len() > MAX_ACME_DNS_PROVIDERS || config.certificates.len()
        > MAX_ACME_CERTIFICATES - acme.certificates.len() {
        return Err(
            ConfigError::invalid(
                "ACME issuer, certificate, or DNS provider count exceeds its bound",
            ),
        );
    }
    let mut i: usize = 0;
    while i < acme.issuers.len()
        invariant
            acme == config.acme,
            i <= acme.issuers@.len(),
            forall|j: int|
                0 <= j < i ==> #[trigger] issuer_entry_ok(
                    acme.issuers@,
                    j,
                    acme.max_concurrent_orders,
                ),
            issuers_error(acme.issuers@, acme.max_concurrent_orders, 0) == issuers_error(
                acme.issuers@,
                acme.max_concurrent_orders,
                i as int,
            ),
        decreases acme.issuers@.len() - i,
    {
        match check_issuer(&acme.issuers, i, acme.max_concurrent_orders) {
            Ok(()) => {},
            Err(e) => {
                return Err(e);
            },
        }
        i += 1;
    }
    let mut provider_ids: Vec<String> = Vec::new();
    let mut i: usize = 0;
    while i < acme.dns_providers.len()
        invariant
            acme == config.acme,
            i <= acme.dns_providers@.len(),
            provider_ids@ == dns_id_strings(acme.dns_providers@.take(i as int)),
            forall|j: int| 0 <= j < i ==> #[trigger] dns_entry_ok(acme.dns_providers@, j),
            dns_errors(acme.dns_providers@, 0) == dns_errors(acme.dns_providers@, i as int),
        decreases acme.dns_providers@.len() - i,
    {
        match check_dns_provider(&acme.dns_providers, i) {
            Ok(()) => {},
            Err(e) => {
                return Err(e);
            },
        }
        match &acme.dns_providers[i] {
            AcmeDnsProviderConfig::Cloudflare { id, .. } => {
                provider_ids.push(id.clone());
            },
        }
        assert(dns_id_strings(acme.dns_providers@.take(i + 1)) =~= dns_id_strings(
            acme.dns_providers@.take(i as int),
        ).push(
            match acme.dns_providers@[i as int] {
                AcmeDnsProviderConfig::Cloudflare { id, .. } => id,
            },
        ));
        i += 1;
    }
    assert(acme.dns_providers@.take(acme.dns_providers@.len() as int) =~= acme.dns_providers@);
    let mut i: usize = 0;
    while i < acme.certificates.len()
        invariant
            acme == config.acme,
            provider_ids@ == dns_id_strings(config.acme.dns_providers@),
            ids0 == old(certificate_ids)@,
            hosts0 == old(certificate_hosts)@,
            i <= acme.certificates@.len(),
            certificate_ids@ == ids0 + cert_id_strings(acme.certificates@.take(i as int)),
            certificate_hosts@ == hosts0 + flat_hosts(acme.certificates@.take(i as int)),
            forall|j: int| 0 <= j < i ==> #[trigger] cert_entry_ok(*config, j, ids0, hosts0),
            certs_error(*config, ids0, hosts0, 0) == certs_error(*config, ids0, hosts0, i as int),
        decreases acme.certificates@.len() - i,
    {
        let ghost before_ids = certificate_ids@;
        let ghost before_hosts = certificate_hosts@;
        match check_certificate(config, i, &provider_ids, certificate_ids, certificate_hosts) {
            Ok(()) => {},
            Err(e) => {
                assert(!cert_entry_ok(*config, i as int, ids0, hosts0));
                return Err(e);
            },
        }
        proof {
            let certs = acme.certificates@;
            assert(certs.take(i + 1).drop_last() =~= certs.take(i as int));
            assert(cert_id_strings(certs.take(i + 1)) =~= cert_id_strings(certs.take(i as int)).push(
                certs[i as int].id,
            ));
            assert(certificate_ids@ =~= ids0 + cert_id_strings(certs.take(i + 1)));
            assert(certificate_hosts@ =~= hosts0 + flat_hosts(certs.take(i + 1)));
        }
        i += 1;
    }
    assert(acme.certificates@.take(acme.certificates@.len() as int) =~= acme.certificates@);
    if acme.certificates.len() != 0 {
        if config.tls.identity.is_none() {
            return Err(ConfigError::invalid("tls.identity is required for encrypted ACME state"));
        }
        let recipients = &config.tls.state_encryption_recipients;
        if recipients.len() == 0 || recipients.len() > 8 {
            return Err(
                ConfigError::invalid(
                    "tls.state_encryption_recipients must contain 1..=8 recipients for ACME",
                ),
            );
        }
        let mut k: usize = 0;
        while k < recipients.len()
            invariant
                *recipients == config.tls.state_encryption_recipients,
                config.acme.certificates@.len() > 0,
                k <= recipients@.len(),
                forall|m: int| 0 <= m < k ==> age_recipient_accepted((#[trigger] recipients@[m])@),
            decreases recipients@.len() - k,
        {
            if !age_recipient_valid(recipients[k].as_str()) {
                assert(!age_recipient_accepted(config.tls.state_encryption_recipients@[k as int]@));
                return Err(ConfigError::invalid("tls.state_encryption_recipients is invalid"));
            }
            k += 1;
        }
    }
    Ok(())
}

} // verus!
