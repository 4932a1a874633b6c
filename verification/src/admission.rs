//! The checks a request passes before routing, in the order the proxy
//! applies them, and the refusal each failure is answered with.

use vstd::prelude::*;
use vstd::utf8::decode_utf8;
use crate::schema::{Config, ListenerConfig, LimitsConfig};
use crate::net::IpAddress;
use crate::text::{utf8, str_eq};
use crate::route::{RequestFacts, first_header, visible_ascii, header_value, canonicalize_request_path, canonical_request_path, canonical_host, canonical_host_spec, PathError};
use crate::request::{reject_unsafe_request_target, target_unsafe, request_host, request_host_spec, values_named, header_values};
use crate::acme::{find_listener, first_listener};
use crate::forwarding::{normalize_forwarding_headers, client_ip_spec, forwarding_fields, fields_valid, ForwardingPlan, string_views, pair_views, forwarding_names};
use crate::pipeline::{bytes_opt};
use crate::negotiate::{length_value, decimal_usize, ascii_chars};

verus! {

/// A refused request: status and plain-text body.
#[derive(Clone, Copy, Debug)]
pub struct Refusal {
    pub status: u16,
    pub message: &'static str,
}

/// What an admitted request continues with.
#[derive(Debug)]
pub struct Admission {
    /// The new canonical path-and-query, when the path was not canonical.
    pub target: Option<String>,
    /// The canonical request host.
    pub host: String,
    /// `https` on an HTTPS listener, `http` otherwise.
    pub scheme: &'static str,
    /// The forwarding fields to strip and set.
    pub forwarding: ForwardingPlan,
}

pub open spec fn refused(r: Result<Admission, Refusal>, status: u16, message: Seq<char>) -> bool {
    r matches Err(f) && f.status == status && f.message@ == message
}

pub open spec fn listener_scheme(l: ListenerConfig) -> Seq<char> {
    if l.protocol@ == "https"@ {
        "https"@
    } else {
        "http"@
    }
}

/// The TLS server name, when there is one, disagrees with the host.
pub open spec fn sni_mismatch(sni: Option<Seq<char>>, host: Seq<u8>) -> bool {
    match sni {
        None => false,
        Some(n) => match canonical_host_spec(n) {
            None => true,
            Some(c) => c != host,
        },
    }
}

pub open spec fn xff_lit() -> Seq<char> {
    "x-forwarded-for"@
}

/// Admits a request before routing, checking in order: a safe request
/// target (else 400), a target within the bound (else 414) with a
/// canonical path (else 400), a valid authority (else 400), a known
/// listener (else 503), valid forwarding fields (else 400), and a host
/// that matches the TLS server name (else 421).
pub fn admit_target(
    config: &Config,
    listener_id: &str,
    request: &RequestFacts,
    query: Option<&str>,
    target_len: usize,
    peer: IpAddress,
    tls_server_name: Option<&str>,
) -> (r: Result<Admission, Refusal>)
    ensures
        target_unsafe(*request) ==> refused(r, 400, "request target is not supported\n"@),
        !target_unsafe(*request) ==> {
            let max = config.limits.max_request_target;
            if target_len > max {
                refused(r, 414, "request target is too long\n"@)
            } else if canonical_request_path(utf8(request.path@)) is None {
                refused(r, 400, "request path is not canonical\n"@)
            } else if request_host_spec(*request) is None {
                refused(r, 400, "invalid authority\n"@)
            } else if find_listener(config.listeners@, listener_id@) is None {
                refused(r, 503, "listener unavailable\n"@)
            } else {
                let host = request_host_spec(*request)->0;
                let l = find_listener(config.listeners@, listener_id@)->0;
                let scheme = listener_scheme(l);
                match client_ip_spec(
                    header_values(request.headers@, xff_lit()),
                    peer,
                    config.trusted_proxies,
                ) {
                    None => refused(r, 400, "invalid forwarding headers\n"@),
                    Some(ip) => if !fields_valid(forwarding_fields(ip, scheme, decode_utf8(host), l.bind.port)) {
                        refused(r, 400, "invalid forwarding headers\n"@)
                    } else if sni_mismatch(
                        match tls_server_name {
                            Some(n) => Some(n@),
                            None => None,
                        },
                        host,
                    ) {
                        refused(r, 421, "authority does not match TLS server name\n"@)
                    } else {
                        r matches Ok(a) && utf8(a.host@) == host && a.scheme@ == scheme
                            && a.forwarding.client == ip && string_views(a.forwarding.remove@)
                            == forwarding_names() && pair_views(a.forwarding.insert@)
                            == forwarding_fields(ip, scheme, decode_utf8(host), l.bind.port)
                            && match canonical_request_path(utf8(request.path@)) {
                            Some(c) => if c == utf8(request.path@) {
                                a.target is None
                            } else {
                                a.target matches Some(t) && utf8(t@) == crate::route::rewritten_target(
                                    c,
                                    bytes_opt(query),
                                )
                            },
                            None => false,
                        }
                    },
                }
            }
        },
{
    if reject_unsafe_request_target(request).is_some() {
        return Err(Refusal { status: 400, message: "request target is not supported\n" });
    }
    proof {
        reveal_strlit("request target is not supported\n");
    }
    let target = match canonicalize_request_path(
        request.path.as_str(),
        query,
        target_len,
        config.limits.max_request_target,
    ) {
        Ok(t) => t,
        Err(PathError::TooLong) => {
            return Err(Refusal { status: 414, message: "request target is too long\n" });
        },
        Err(PathError::Invalid) => {
            return Err(Refusal { status: 400, message: "request path is not canonical\n" });
        },
    };
    let host = match request_host(request) {
        Ok(h) => h,
        Err(()) => {
            return Err(Refusal { status: 400, message: "invalid authority\n" });
        },
    };
    let listener = match first_listener(&config.listeners, listener_id) {
        Some(l) => l,
        None => {
            return Err(Refusal { status: 503, message: "listener unavailable\n" });
        },
    };
    proof {
        reveal_strlit("https");
        reveal_strlit("x-forwarded-for");
    }
    let scheme: &'static str = if str_eq(listener.protocol.as_str(), "https") {
        "https"
    } else {
        "http"
    };
    let xff_name = "x-forwarded-for";
    let forwarded_for = values_named(&request.headers, xff_name);
    proof {
        let hv = header_values(request.headers@, xff_lit());
        assert(forwarded_for@.len() == hv.len());
        if hv.len() > 0 {
            assert(forwarded_for@[0]@ == hv[0]@);
        }
        vstd::utf8::encode_utf8_decode_utf8(host@);
        assert(client_ip_spec(forwarded_for@, peer, config.trusted_proxies) == client_ip_spec(
            hv,
            peer,
            config.trusted_proxies,
        ));
    }
    let forwarding = match normalize_forwarding_headers(
        &forwarded_for,
        peer,
        &config.trusted_proxies,
        scheme,
        host.as_str(),
        listener.bind.port,
    ) {
        Ok(p) => p,
        Err(_) => {
            return Err(Refusal { status: 400, message: "invalid forwarding headers\n" });
        },
    };
    match tls_server_name {
        Some(name) => {
            let matches = match canonical_host(name) {
                Ok(c) => {
                    proof {
                        vstd::utf8::encode_utf8_decode_utf8(c@);
                    }
                    str_eq(c.as_str(), host.as_str())
                },
                Err(()) => false,
            };
            if !matches {
                return Err(
                    Refusal { status: 421, message: "authority does not match TLS server name\n" },
                );
            }
        },
        None => {},
    }
    Ok(Admission { target, host, scheme, forwarding })
}

/// The bytes of the header section as the proxy counts them: each name
/// and value.
pub open spec fn header_bytes(hs: Seq<(String, Vec<u8>)>) -> int
    decreases hs.len(),
{
    if hs.len() == 0 {
        0
    } else {
        header_bytes(hs.drop_last()) + utf8(hs.last().0@).len() + hs.last().1@.len()
    }
}

proof fn lemma_header_bytes_grow(hs: Seq<(String, Vec<u8>)>, k: int)
    requires
        0 <= k <= hs.len(),
    ensures
        header_bytes(hs.take(k)) <= header_bytes(hs),
    decreases hs.len() - k,
{
    if k < hs.len() {
        lemma_header_bytes_grow(hs, k + 1);
        assert(hs.take(k + 1).drop_last() =~= hs.take(k));
    } else {
        assert(hs.take(k) =~= hs);
    }
}

/// The declared body length exceeds the bound.
pub open spec fn body_too_large(hs: Seq<(String, Vec<u8>)>, max_body: usize) -> bool {
    first_header(hs, "content-length"@) matches Some(v) && visible_ascii(v) && (decimal_usize(
        ascii_chars(v),
    ) matches Some(n) && n > max_body)
}

/// Checks the normalized header section: too many fields or bytes is 431,
/// a declared body over the bound is 413.
pub fn admit_size(limits: &LimitsConfig, headers: &Vec<(String, Vec<u8>)>) -> (r: Option<Refusal>)
    ensures
        (headers@.len() > limits.max_headers || header_bytes(headers@) > limits.max_header_bytes) ==> (r matches Some(f) && f.status == 431
            && f.message@ == "request headers too large\n"@),
        !(headers@.len() > limits.max_headers || header_bytes(headers@) > limits.max_header_bytes) ==> if body_too_large(
            headers@,
            limits.max_request_body,
        ) {
            r matches Some(f) && f.status == 413 && f.message@ == "request body too large\n"@
        } else {
            r is None
        },
{
    if headers.len() > limits.max_headers {
        return Some(Refusal { status: 431, message: "request headers too large\n" });
    }
    let mut total: usize = 0;
    let mut i: usize = 0;
    while i < headers.len()
        invariant
            i <= headers@.len(),
            total == header_bytes(headers@.take(i as int)),
            total <= limits.max_header_bytes,
        decreases headers@.len() - i,
    {
        let name_len = headers[i].0.as_str().as_bytes().len();
        let value_len = headers[i].1.len();
        proof {
            assert(headers@.take(i + 1).drop_last() =~= headers@.take(i as int));
        }
        if name_len > limits.max_header_bytes - total || value_len > limits.max_header_bytes - total - name_len {
            proof {
                lemma_header_bytes_grow(headers@, i + 1);
            }
            return Some(Refusal { status: 431, message: "request headers too large\n" });
        }
        total = total + name_len + value_len;
        i += 1;
    }
    proof {
        assert(headers@.take(headers@.len() as int) =~= headers@);
        reveal_strlit("content-length");
    }
    match header_value(headers, "content-length") {
        Some(v) => match length_value(v) {
            Some(n) => {
                if n > limits.max_request_body {
                    return Some(Refusal { status: 413, message: "request body too large\n" });
                }
            },
            None => {},
        },
        None => {},
    }
    None
}

} // verus!
