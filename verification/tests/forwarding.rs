use aegisproxy::forwarding::{
    normalize_forwarding_headers, rebuild_forwarding_headers, trusted_client_ip, NormalizeError,
    MAX_FORWARDED_ADDRESSES,
};
use aegisproxy::net::{Cidr, IpAddress};
use aegisproxy::schema::TrustedProxyConfig;

fn policy(hops: usize) -> TrustedProxyConfig {
    TrustedProxyConfig {
        cidrs: vec![Cidr::parse("10.0.0.0/8").expect("CIDR")],
        trusted_hops: hops,
    }
}

fn ip(text: &str) -> IpAddress {
    IpAddress::parse(text).expect("IP")
}

fn header(value: &str) -> Vec<Vec<u8>> {
    vec![value.as_bytes().to_vec()]
}

fn lookup<'a>(fields: &'a [(String, String)], name: &str) -> Option<&'a str> {
    fields
        .iter()
        .find(|(field, _)| field == name)
        .map(|(_, value)| value.as_str())
}

#[test]
fn untrusted_peer_cannot_spoof_client_identity() {
    let plan = normalize_forwarding_headers(
        &header("192.0.2.10"),
        ip("203.0.113.5"),
        &policy(1),
        "https",
        "example.test",
        443,
    )
    .expect("normalize");
    assert_eq!(plan.client, ip("203.0.113.5"));
    assert_eq!(lookup(&plan.insert, "x-forwarded-for"), Some("203.0.113.5"));
    assert!(plan.remove.iter().any(|name| name == "x-request-id"));
    assert!(lookup(&plan.insert, "x-request-id").is_none());
}

#[test]
fn trusted_chain_is_scanned_right_to_left_until_untrusted() {
    let plan = normalize_forwarding_headers(
        &header("198.51.100.9, 10.0.0.2"),
        ip("10.0.0.3"),
        &policy(2),
        "http",
        "example.test",
        8080,
    )
    .expect("normalize");
    assert_eq!(plan.client, ip("198.51.100.9"));
    assert_eq!(lookup(&plan.insert, "x-forwarded-for"), Some("198.51.100.9"));
    assert_eq!(lookup(&plan.insert, "x-forwarded-proto"), Some("http"));
    assert_eq!(lookup(&plan.insert, "x-forwarded-port"), Some("8080"));
}

#[test]
fn malformed_or_excess_trusted_chain_fails_closed() {
    for value in ["", "not-an-ip", "192.0.2.1,,10.0.0.2"] {
        assert_eq!(
            normalize_forwarding_headers(
                &header(value),
                ip("10.0.0.3"),
                &policy(2),
                "https",
                "example.test",
                443,
            )
            .err(),
            Some(NormalizeError::InvalidForwarding)
        );
    }
    let excess = vec!["10.0.0.2"; MAX_FORWARDED_ADDRESSES + 1].join(",");
    assert_eq!(
        normalize_forwarding_headers(
            &header(&excess),
            ip("10.0.0.3"),
            &policy(2),
            "https",
            "example.test",
            443,
        )
        .err(),
        Some(NormalizeError::InvalidForwarding)
    );
}

#[test]
fn hop_limit_and_repeated_fields() {
    let chain = header("192.0.2.1, 10.0.0.1, 10.0.0.2");
    assert_eq!(trusted_client_ip(&chain, ip("10.0.0.3"), &policy(1)), Ok(ip("10.0.0.2")));
    assert_eq!(trusted_client_ip(&chain, ip("10.0.0.3"), &policy(3)), Ok(ip("192.0.2.1")));
    assert_eq!(trusted_client_ip(&chain, ip("10.0.0.3"), &policy(0)), Ok(ip("10.0.0.3")));
    assert_eq!(trusted_client_ip(&vec![], ip("10.0.0.3"), &policy(2)), Ok(ip("10.0.0.3")));
    let repeated = vec![b"10.0.0.1".to_vec(), b"10.0.0.2".to_vec()];
    assert_eq!(
        trusted_client_ip(&repeated, ip("10.0.0.3"), &policy(2)),
        Err(NormalizeError::InvalidForwarding)
    );
}

#[test]
fn canonical_fields_quote_ipv6_and_refuse_bad_values() {
    let fields = rebuild_forwarding_headers(ip("2001:db8::1"), "https", "example.test", 443)
        .expect("fields");
    assert_eq!(
        lookup(&fields, "forwarded"),
        Some("for=\"[2001:db8::1]\";proto=https;host=\"example.test\"")
    );
    assert_eq!(lookup(&fields, "x-real-ip"), Some("2001:db8::1"));
    assert_eq!(
        rebuild_forwarding_headers(ip("192.0.2.1"), "https", "bad\nhost", 443),
        Err(NormalizeError::InvalidCanonicalHeader)
    );
}
