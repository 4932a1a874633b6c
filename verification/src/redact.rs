//! Configuration export with every secret reference replaced.

use vstd::prelude::*;
use vstd::string::StringExecFns;
use crate::schema::{
    Config, AdminConfig, TlsConfig, CertificateConfig, AcmeConfig, AcmeIssuerConfig,
    AcmeDnsProviderConfig, UpstreamGroupConfig, EndpointConfig, MiddlewareConfig,
};
use crate::map::OrderedMap;
use crate::provider::{ProviderConfig, FileProviderConfig, DnsProviderConfig};

verus! {

/// What stands in place of a secret reference.
pub open spec fn redacted_text() -> Seq<char> {
    "<redacted-secret-reference>"@
}

fn redaction() -> (r: String)
    ensures
        r@ == redacted_text(),
{
    String::from_str("<redacted-secret-reference>")
}

/// An optional secret reference is kept absent, or replaced.
pub open spec fn redacted_opt(r: Option<String>, c: Option<String>) -> bool {
    &&& (r is Some <==> c is Some)
    &&& (r matches Some(s) ==> s@ == redacted_text())
}

pub open spec fn redacted_issuer(r: AcmeIssuerConfig, c: AcmeIssuerConfig) -> bool {
    &&& r == AcmeIssuerConfig { ca_bundle: r.ca_bundle, external_account: r.external_account, ..c }
    &&& redacted_opt(r.ca_bundle, c.ca_bundle)
    &&& match (r.external_account, c.external_account) {
        (None, None) => true,
        (Some(x), Some(y)) => x.key_id == y.key_id && x.hmac_key@ == redacted_text(),
        _ => false,
    }
}

pub open spec fn redacted_dns(r: AcmeDnsProviderConfig, c: AcmeDnsProviderConfig) -> bool {
    match (r, c) {
        (
            AcmeDnsProviderConfig::Cloudflare { id: ri, zone_id: rz, api_token: rt },
            AcmeDnsProviderConfig::Cloudflare { id: ci, zone_id: cz, .. },
        ) => ri == ci && rz == cz && rt@ == redacted_text(),
    }
}

pub open spec fn redacted_endpoint(r: EndpointConfig, c: EndpointConfig) -> bool {
    &&& r == EndpointConfig { ca_bundle: r.ca_bundle, ..c }
    &&& redacted_opt(r.ca_bundle, c.ca_bundle)
}

pub open spec fn redacted_group(r: UpstreamGroupConfig, c: UpstreamGroupConfig) -> bool {
    &&& r == UpstreamGroupConfig { endpoints: r.endpoints, ..c }
    &&& r.endpoints@.len() == c.endpoints@.len()
    &&& forall|i: int|
        0 <= i < r.endpoints@.len() ==> redacted_endpoint(
            #[trigger] r.endpoints@[i],
            c.endpoints@[i],
        )
}

pub open spec fn redacted_provider(r: ProviderConfig, c: ProviderConfig) -> bool {
    match (r, c) {
        (ProviderConfig::File(x), ProviderConfig::File(y)) => {
            &&& x == FileProviderConfig { ca_bundle: x.ca_bundle, ..y }
            &&& redacted_opt(x.ca_bundle, y.ca_bundle)
        },
        (ProviderConfig::Dns(x), ProviderConfig::Dns(y)) => {
            &&& x == DnsProviderConfig { ca_bundle: x.ca_bundle, ..y }
            &&& redacted_opt(x.ca_bundle, y.ca_bundle)
        },
        _ => false,
    }
}

/// Same user names in the same order; every password hash reference replaced.
pub open spec fn redacted_users(r: OrderedMap<String>, c: OrderedMap<String>) -> bool {
    &&& r.spec_entries().len() == c.spec_entries().len()
    &&& forall|i: int|
        0 <= i < r.spec_entries().len() ==> {
            &&& (#[trigger] r.spec_entries()[i]).0 == c.spec_entries()[i].0
            &&& r.spec_entries()[i].1@ == redacted_text()
        }
}

/// A Basic authentication middleware loses its user secret references;
/// every other middleware is kept as it is.
pub open spec fn redacted_middleware(r: MiddlewareConfig, c: MiddlewareConfig) -> bool {
    match c {
        MiddlewareConfig::BasicAuth { realm, users, max_concurrent_verifications, timeout_secs } => {
            &&& r matches MiddlewareConfig::BasicAuth {
                realm: rr,
                users: ru,
                max_concurrent_verifications: rm,
                timeout_secs: rt,
            }
            &&& rr == realm && rm == max_concurrent_verifications && rt == timeout_secs
            &&& redacted_users(ru, users)
        },
        _ => r == c,
    }
}

pub open spec fn redacted_middlewares(
    r: OrderedMap<MiddlewareConfig>,
    c: OrderedMap<MiddlewareConfig>,
) -> bool {
    &&& r.spec_entries().len() == c.spec_entries().len()
    &&& forall|i: int|
        0 <= i < r.spec_entries().len() ==> {
            &&& (#[trigger] r.spec_entries()[i]).0 == c.spec_entries()[i].0
            &&& redacted_middleware(r.spec_entries()[i].1, c.spec_entries()[i].1)
        }
}

/// `r` is `c` with every secret reference replaced: the audit key, the
/// state identity, certificate chains and keys, issuer CA bundles and
/// external-account keys, DNS API tokens, endpoint and provider CA
/// bundles, and the password hash references of Basic authentication.
pub open spec fn redacted_config(r: Config, c: Config) -> bool {
    &&& r == Config {
        admin: r.admin,
        tls: r.tls,
        certificates: r.certificates,
        acme: r.acme,
        upstream_groups: r.upstream_groups,
        providers: r.providers,
        middlewares: r.middlewares,
        ..c
    }
    &&& r.admin == AdminConfig { audit_key: r.admin.audit_key, ..c.admin }
    &&& redacted_opt(r.admin.audit_key, c.admin.audit_key)
    &&& r.tls == TlsConfig { identity: r.tls.identity, ..c.tls }
    &&& redacted_opt(r.tls.identity, c.tls.identity)
    &&& r.certificates@.len() == c.certificates@.len()
    &&& forall|i: int|
        0 <= i < r.certificates@.len() ==> {
            let x = #[trigger] r.certificates@[i];
            let y = c.certificates@[i];
            &&& x == CertificateConfig {
                certificate_chain: x.certificate_chain,
                private_key: x.private_key,
                ..y
            }
            &&& x.certificate_chain@ == redacted_text()
            &&& x.private_key@ == redacted_text()
        }
    &&& r.acme == AcmeConfig { issuers: r.acme.issuers, dns_providers: r.acme.dns_providers, ..c.acme }
    &&& r.acme.issuers@.len() == c.acme.issuers@.len()
    &&& forall|i: int|
        0 <= i < r.acme.issuers@.len() ==> redacted_issuer(
            #[trigger] r.acme.issuers@[i],
            c.acme.issuers@[i],
        )
    &&& r.acme.dns_providers@.len() == c.acme.dns_providers@.len()
    &&& forall|i: int|
        0 <= i < r.acme.dns_providers@.len() ==> redacted_dns(
            #[trigger] r.acme.dns_providers@[i],
            c.acme.dns_providers@[i],
        )
    &&& r.upstream_groups@.len() == c.upstream_groups@.len()
    &&& forall|i: int|
        0 <= i < r.upstream_groups@.len() ==> redacted_group(
            #[trigger] r.upstream_groups@[i],
            c.upstream_groups@[i],
        )
    &&& r.providers@.len() == c.providers@.len()
    &&& forall|i: int|
        0 <= i < r.providers@.len() ==> redacted_provider(
            #[trigger] r.providers@[i],
            c.providers@[i],
        )
    &&& redacted_middlewares(r.middlewares, c.middlewares)
}

fn redact_opt(o: Option<String>) -> (r: Option<String>)
    ensures
        redacted_opt(r, o),
{
    match o {
        Some(_) => Some(redaction()),
        None => None,
    }
}

fn redact_certificates(v: &mut Vec<CertificateConfig>)
    ensures
        final(v)@.len() == old(v)@.len(),
        forall|i: int|
            0 <= i < final(v)@.len() ==> {
                let x = #[trigger] final(v)@[i];
                let y = old(v)@[i];
                &&& x == CertificateConfig {
                    certificate_chain: x.certificate_chain,
                    private_key: x.private_key,
                    ..y
                }
                &&& x.certificate_chain@ == redacted_text()
                &&& x.private_key@ == redacted_text()
            },
{
    let mut i: usize = 0;
    while i < v.len()
        invariant
            i <= v@.len(),
            v@.len() == old(v)@.len(),
            forall|k: int| i <= k < v@.len() ==> #[trigger] v@[k] == old(v)@[k],
            forall|k: int|
                0 <= k < i ==> {
                    let x = #[trigger] v@[k];
                    let y = old(v)@[k];
                    &&& x == CertificateConfig {
                        certificate_chain: x.certificate_chain,
                        private_key: x.private_key,
                        ..y
                    }
                    &&& x.certificate_chain@ == redacted_text()
                    &&& x.private_key@ == redacted_text()
                },
        decreases v@.len() - i,
    {
        v[i].certificate_chain = redaction();
        v[i].private_key = redaction();
        i += 1;
    }
}

fn redact_issuers(v: &mut Vec<AcmeIssuerConfig>)
    ensures
        final(v)@.len() == old(v)@.len(),
        forall|i: int|
            0 <= i < final(v)@.len() ==> redacted_issuer(#[trigger] final(v)@[i], old(v)@[i]),
{
    let mut i: usize = 0;
    while i < v.len()
        invariant
            i <= v@.len(),
            v@.len() == old(v)@.len(),
            forall|k: int| i <= k < v@.len() ==> #[trigger] v@[k] == old(v)@[k],
            forall|k: int| 0 <= k < i ==> redacted_issuer(#[trigger] v@[k], old(v)@[k]),
        decreases v@.len() - i,
    {
        let bundle = redact_opt(v[i].ca_bundle.take());
        v[i].ca_bundle = bundle;
        match &mut v[i].external_account {
            Some(external) => {
                external.hmac_key = redaction();
            },
            None => {},
        }
        i += 1;
    }
}

fn redact_dns(v: &mut Vec<AcmeDnsProviderConfig>)
    ensures
        final(v)@.len() == old(v)@.len(),
        forall|i: int|
            0 <= i < final(v)@.len() ==> redacted_dns(#[trigger] final(v)@[i], old(v)@[i]),
{
    let mut i: usize = 0;
    while i < v.len()
        invariant
            i <= v@.len(),
            v@.len() == old(v)@.len(),
            forall|k: int| i <= k < v@.len() ==> #[trigger] v@[k] == old(v)@[k],
            forall|k: int| 0 <= k < i ==> redacted_dns(#[trigger] v@[k], old(v)@[k]),
        decreases v@.len() - i,
    {
        match &mut v[i] {
            AcmeDnsProviderConfig::Cloudflare { api_token, .. } => {
                *api_token = redaction();
            },
        }
        i += 1;
    }
}

fn redact_endpoints(v: &mut Vec<EndpointConfig>)
    ensures
        final(v)@.len() == old(v)@.len(),
        forall|i: int|
            0 <= i < final(v)@.len() ==> redacted_endpoint(#[trigger] final(v)@[i], old(v)@[i]),
{
    let mut i: usize = 0;
    while i < v.len()
        invariant
            i <= v@.len(),
            v@.len() == old(v)@.len(),
            forall|k: int| i <= k < v@.len() ==> #[trigger] v@[k] == old(v)@[k],
            forall|k: int| 0 <= k < i ==> redacted_endpoint(#[trigger] v@[k], old(v)@[k]),
        decreases v@.len() - i,
    {
        let bundle = redact_opt(v[i].ca_bundle.take());
        v[i].ca_bundle = bundle;
        i += 1;
    }
}

fn redact_groups(v: &mut Vec<UpstreamGroupConfig>)
    ensures
        final(v)@.len() == old(v)@.len(),
        forall|i: int|
            0 <= i < final(v)@.len() ==> redacted_group(#[trigger] final(v)@[i], old(v)@[i]),
{
    let mut i: usize = 0;
    while i < v.len()
        invariant
            i <= v@.len(),
            v@.len() == old(v)@.len(),
            forall|k: int| i <= k < v@.len() ==> #[trigger] v@[k] == old(v)@[k],
            forall|k: int| 0 <= k < i ==> redacted_group(#[trigger] v@[k], old(v)@[k]),
        decreases v@.len() - i,
    {
        redact_endpoints(&mut v[i].endpoints);
        i += 1;
    }
}

fn redact_providers(v: &mut Vec<ProviderConfig>)
    ensures
        final(v)@.len() == old(v)@.len(),
        forall|i: int|
            0 <= i < final(v)@.len() ==> redacted_provider(#[trigger] final(v)@[i], old(v)@[i]),
{
    let mut i: usize = 0;
    while i < v.len()
        invariant
            i <= v@.len(),
            v@.len() == old(v)@.len(),
            forall|k: int| i <= k < v@.len() ==> #[trigger] v@[k] == old(v)@[k],
            forall|k: int| 0 <= k < i ==> redacted_provider(#[trigger] v@[k], old(v)@[k]),
        decreases v@.len() - i,
    {
        match &mut v[i] {
            ProviderConfig::File(p) => {
                let bundle = redact_opt(p.ca_bundle.take());
                p.ca_bundle = bundle;
            },
            ProviderConfig::Dns(p) => {
                let bundle = redact_opt(p.ca_bundle.take());
                p.ca_bundle = bundle;
            },
        }
        i += 1;
    }
}

fn redact_users(users: &mut OrderedMap<String>)
    ensures
        redacted_users(*final(users), *old(users)),
{
    let mut i: usize = 0;
    while i < users.len()
        invariant
            i <= users.spec_entries().len(),
            users.spec_entries().len() == old(users).spec_entries().len(),
            forall|k: int|
                i <= k < users.spec_entries().len() ==> #[trigger] users.spec_entries()[k]
                    == old(users).spec_entries()[k],
            forall|k: int|
                0 <= k < i ==> {
                    &&& (#[trigger] users.spec_entries()[k]).0 == old(
                        users,
                    ).spec_entries()[k].0
                    &&& users.spec_entries()[k].1@ == redacted_text()
                },
        decreases users.spec_entries().len() - i,
    {
        users.replace_value(i, redaction());
        i += 1;
    }
}

fn redact_middlewares(m: &mut OrderedMap<MiddlewareConfig>)
    ensures
        redacted_middlewares(*final(m), *old(m)),
{
    let mut i: usize = 0;
    while i < m.len()
        invariant
            i <= m.spec_entries().len(),
            m.spec_entries().len() == old(m).spec_entries().len(),
            forall|k: int|
                i <= k < m.spec_entries().len() ==> #[trigger] m.spec_entries()[k]
                    == old(m).spec_entries()[k],
            forall|k: int|
                0 <= k < i ==> {
                    &&& (#[trigger] m.spec_entries()[k]).0 == old(m).spec_entries()[k].0
                    &&& redacted_middleware(m.spec_entries()[k].1, old(m).spec_entries()[k].1)
                },
        decreases m.spec_entries().len() - i,
    {
        let placeholder = MiddlewareConfig::IpPolicy { allow: Vec::new(), deny: Vec::new() };
        let middleware = match m.replace_value(i, placeholder) {
            MiddlewareConfig::BasicAuth { realm, mut users, max_concurrent_verifications, timeout_secs } => {
                redact_users(&mut users);
                MiddlewareConfig::BasicAuth { realm, users, max_concurrent_verifications, timeout_secs }
            },
            other => other,
        };
        m.replace_value(i, middleware);
        i += 1;
    }
}

/// The configuration with every secret reference removed, for export.
pub fn redacted(config: Config) -> (r: Config)
    ensures
        redacted_config(r, config),
{
    let mut output = config;
    let audit = redact_opt(output.admin.audit_key.take());
    output.admin.audit_key = audit;
    let identity = redact_opt(output.tls.identity.take());
    output.tls.identity = identity;
    redact_certificates(&mut output.certificates);
    redact_issuers(&mut output.acme.issuers);
    redact_dns(&mut output.acme.dns_providers);
    redact_groups(&mut output.upstream_groups);
    redact_providers(&mut output.providers);
    redact_middlewares(&mut output.middlewares);
    output
}

} // verus!
