use aegisproxy::map::OrderedMap;
use aegisproxy::net::SocketAddress;
use aegisproxy::provider::{DnsProviderConfig, FileProviderConfig, ProviderConfig, ProviderScheme};
use aegisproxy::redact::redacted;
use aegisproxy::schema::{
    AcmeConfig, AcmeDnsProviderConfig, AcmeEnvironment, AcmeExternalAccountConfig,
    AcmeIssuerConfig, AdminConfig, CertificateConfig, Config, EndpointConfig, LimitsConfig,
    ListenerConfig, MiddlewareConfig, ObservabilityConfig, RuntimeConfig, TlsConfig, TrustedProxyConfig,
    UpstreamGroupConfig,
};
use aegisproxy::web::WebUrl;

const REDACTED: &str = "<redacted-secret-reference>";

fn canary_config() -> Config {
    Config {
        schema_version: 1,
        runtime: RuntimeConfig::default(),
        limits: LimitsConfig::default(),
        listeners: vec![ListenerConfig {
            id: "public".into(),
            bind: SocketAddress::parse("127.0.0.1:443").expect("address"),
            protocol: "https".into(),
            certificates: vec!["site".into()],
        }],
        tls: TlsConfig {
            identity: Some("env://CANARY_IDENTITY".into()),
            ..TlsConfig::default()
        },
        certificates: vec![CertificateConfig {
            id: "site".into(),
            hosts: vec!["example.test".into()],
            certificate_chain: "file:///CANARY_CHAIN".into(),
            private_key: "file:///CANARY_KEY".into(),
        }],
        acme: AcmeConfig {
            max_concurrent_orders: 4,
            renewal_owner: None,
            issuers: vec![AcmeIssuerConfig {
                id: "test-ca".into(),
                directory_url: WebUrl::parse("https://acme.test/directory").expect("URL"),
                environment: AcmeEnvironment::Staging,
                account_email: None,
                terms_of_service_agreed: true,
                ca_bundle: Some("file:///CANARY_ACME_CA".into()),
                external_account: Some(AcmeExternalAccountConfig {
                    key_id: "key-id".into(),
                    hmac_key: "env://CANARY_EAB".into(),
                }),
                max_concurrent_orders: 2,
            }],
            certificates: vec![],
            dns_providers: vec![AcmeDnsProviderConfig::Cloudflare {
                id: "cloudflare".into(),
                zone_id: "0123456789abcdef0123456789abcdef".into(),
                api_token: "env://CANARY_DNS".into(),
            }],
        },
        trusted_proxies: TrustedProxyConfig::default(),
        upstream_groups: vec![UpstreamGroupConfig {
            id: "app".into(),
            allowed_cidrs: vec![],
            endpoints: vec![EndpointConfig {
                id: "app-1".into(),
                url: WebUrl::parse("https://192.0.2.1:443").expect("URL"),
                weight: 1,
                server_name: Some("upstream.test".into()),
                ca_bundle: Some("file:///CANARY_CA".into()),
            }],
            ..UpstreamGroupConfig::default()
        }],
        providers: vec![],
        middlewares: OrderedMap::new(),
        routes: vec![],
        admin: AdminConfig {
            audit_key: Some("env://CANARY_AUDIT".into()),
            ..AdminConfig::default()
        },
        observability: ObservabilityConfig::default(),
    }
}

#[test]
fn export_contains_no_secret_reference_canaries() {
    let exported = format!("{:?}", redacted(canary_config()));
    assert!(!exported.contains("CANARY"));
    assert_eq!(exported.matches(REDACTED).count(), 8);
}

#[test]
fn redaction_keeps_public_fields_and_absent_secrets() {
    let mut config = canary_config();
    config.admin.audit_key = None;
    config.upstream_groups[0].endpoints[0].ca_bundle = None;
    let output = redacted(config);
    assert!(output.admin.audit_key.is_none());
    assert!(output.upstream_groups[0].endpoints[0].ca_bundle.is_none());
    assert_eq!(
        output.upstream_groups[0].endpoints[0].server_name.as_deref(),
        Some("upstream.test")
    );
    assert_eq!(output.certificates[0].hosts, vec!["example.test".to_string()]);
    assert_eq!(output.tls.identity.as_deref(), Some(REDACTED));
    match &output.acme.dns_providers[0] {
        AcmeDnsProviderConfig::Cloudflare { zone_id, api_token, .. } => {
            assert_eq!(zone_id, "0123456789abcdef0123456789abcdef");
            assert_eq!(api_token, REDACTED);
        }
    }
}

#[test]
fn redaction_removes_provider_bundles_and_basic_auth_hashes() {
    let mut config = canary_config();
    config.providers.push(ProviderConfig::File(FileProviderConfig {
        id: "file".into(),
        enabled: true,
        upstream_group: "app".into(),
        path: "/etc/aegis/endpoints.json".into(),
        scheme: ProviderScheme::Https,
        server_name: Some("upstream.test".into()),
        ca_bundle: Some("file:///CANARY_FILE_CA".into()),
        refresh_secs: 5,
        debounce_millis: 250,
        stale_after_secs: 300,
        max_endpoints: 64,
    }));
    config.providers.push(ProviderConfig::Dns(DnsProviderConfig {
        id: "dns".into(),
        enabled: true,
        upstream_group: "app".into(),
        hostname: "app.internal".into(),
        port: 443,
        scheme: ProviderScheme::Https,
        server_name: None,
        ca_bundle: Some("file:///CANARY_DNS_CA".into()),
        weight: 1,
        refresh_secs: 30,
        stale_after_secs: 300,
        max_answers: 16,
    }));
    let mut users = OrderedMap::new();
    users.insert("alice".to_string(), "env://CANARY_ALICE".to_string());
    users.insert("bob".to_string(), "file:///CANARY_BOB".to_string());
    config.middlewares.insert(
        "login".to_string(),
        MiddlewareConfig::BasicAuth {
            realm: "admin".into(),
            users,
            max_concurrent_verifications: 4,
            timeout_secs: 5,
        },
    );
    let exported = format!("{:?}", redacted(config.clone()));
    assert!(!exported.contains("CANARY"));
    assert_eq!(exported.matches(REDACTED).count(), 12);
    let output = redacted(config);
    match output.middlewares.get("login") {
        Some(MiddlewareConfig::BasicAuth { realm, users, .. }) => {
            assert_eq!(realm, "admin");
            assert_eq!(users.len(), 2);
            assert_eq!(users.get("alice").map(String::as_str), Some(REDACTED));
            assert_eq!(users.get("bob").map(String::as_str), Some(REDACTED));
        }
        _ => panic!("basic authentication middleware kept"),
    }
}
