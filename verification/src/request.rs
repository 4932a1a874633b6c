//! Request-level rules of the proxy core: the canonical request host, the
//! request-target safety check, and request classification.

use vstd::prelude::*;
use vstd::utf8::decode_utf8;
use crate::text::{utf8, str_eq, ascii_string, has_byte, slice_has_byte};
use crate::route::{
    RequestFacts, first_header, visible_ascii, header_value, bytes_visible_ascii,
    canonical_host_spec, canonical_host,
};
use crate::web::{AuthorityParts, AuthorityView, authority_from_str};
use crate::negotiate::{ascii_chars, header_lists_token, lists_token, value_lists_token, fold_char, fold_eq};
use crate::index::byte_views;

verus! {

/// The canonical host an authority names: no user information, no empty
/// port, a port that fits, and a canonical host.
pub open spec fn authority_host_spec(a: AuthorityView) -> Option<Seq<u8>> {
    if has_byte(utf8(a.text), 0x40) || (a.text.len() > 0 && a.text.last() == ':') || (
    a.port_present && a.port is None) {
        None
    } else {
        canonical_host_spec(a.host)
    }
}

/// The canonical host of an authority.
pub fn canonical_authority_host(authority: &AuthorityParts) -> (r: Result<String, ()>)
    ensures
        r is Ok <==> authority_host_spec(authority@) is Some,
        r matches Ok(s) ==> utf8(s@) == authority_host_spec(authority@)->0,
{
    let text = authority.as_str();
    let n = text.unicode_len();
    let ends_colon = n > 0 && text.get_char(n - 1) == ':';
    if slice_has_byte(text.as_bytes(), 0x40) || ends_colon || (authority.port_present()
        && authority.port_u16().is_none()) {
        return Err(());
    }
    canonical_host(authority.host())
}

/// The number of fields named `name`.
pub open spec fn header_count(hs: Seq<(String, Vec<u8>)>, name: Seq<char>) -> int
    decreases hs.len(),
{
    if hs.len() == 0 {
        0
    } else {
        header_count(hs.drop_last(), name) + if hs.last().0@ == name {
            1int
        } else {
            0int
        }
    }
}

/// All values of the fields named `name`, in order.
pub open spec fn header_values(hs: Seq<(String, Vec<u8>)>, name: Seq<char>) -> Seq<Vec<u8>>
    decreases hs.len(),
{
    if hs.len() == 0 {
        Seq::empty()
    } else {
        let rest = header_values(hs.drop_last(), name);
        if hs.last().0@ == name {
            rest.push(hs.last().1)
        } else {
            rest
        }
    }
}

pub fn count_headers(hs: &Vec<(String, Vec<u8>)>, name: &str) -> (r: usize)
    ensures
        r == header_count(hs@, name@),
{
    let mut n: usize = 0;
    let mut i: usize = 0;
    while i < hs.len()
        invariant
            i <= hs@.len(),
            n == header_count(hs@.take(i as int), name@),
            n <= i,
        decreases hs@.len() - i,
    {
        proof {
            assert(hs@.take(i + 1).drop_last() =~= hs@.take(i as int));
        }
        if str_eq(hs[i].0.as_str(), name) {
            n += 1;
        }
        i += 1;
    }
    assert(hs@.take(hs@.len() as int) =~= hs@);
    n
}

/// Copies of the values of the fields named `name`, in order.
pub fn values_named(hs: &Vec<(String, Vec<u8>)>, name: &str) -> (r: Vec<Vec<u8>>)
    ensures
        r@.len() == header_values(hs@, name@).len(),
        forall|k: int| 0 <= k < r@.len() ==> (#[trigger] r@[k])@ == header_values(hs@, name@)[k]@,
{
    let mut r: Vec<Vec<u8>> = Vec::new();
    let mut i: usize = 0;
    while i < hs.len()
        invariant
            i <= hs@.len(),
            r@.len() == header_values(hs@.take(i as int), name@).len(),
            forall|k: int|
                0 <= k < r@.len() ==> (#[trigger] r@[k])@ == header_values(hs@.take(i as int), name@)[k]@,
        decreases hs@.len() - i,
    {
        proof {
            assert(hs@.take(i + 1).drop_last() =~= hs@.take(i as int));
        }
        if str_eq(hs[i].0.as_str(), name) {
            let v = hs[i].1.clone();
            r.push(v);
        }
        i += 1;
    }
    assert(hs@.take(hs@.len() as int) =~= hs@);
    r
}

/// Only the views of the values decide whether a list names a token.
pub proof fn lemma_lists_token_views(a: Seq<Vec<u8>>, b: Seq<Vec<u8>>, lit: Seq<char>)
    requires
        a.len() == b.len(),
        forall|k: int| 0 <= k < a.len() ==> (#[trigger] a[k])@ == b[k]@,
    ensures
        header_lists_token(a, lit) == header_lists_token(b, lit),
{
    if header_lists_token(a, lit) {
        let i = choose|i: int|
            0 <= i < a.len() && visible_ascii(a[i]@) && #[trigger] value_lists_token(
                ascii_chars(a[i]@),
                lit,
            );
        assert(b[i]@ == a[i]@);
    }
    if header_lists_token(b, lit) {
        let i = choose|i: int|
            0 <= i < b.len() && visible_ascii(b[i]@) && #[trigger] value_lists_token(
                ascii_chars(b[i]@),
                lit,
            );
        assert(b[i]@ == a[i]@);
    }
}

/// The host named by a `Host` field: visible ASCII that parses as an
/// authority with a canonical host.
pub open spec fn header_host_spec(v: Seq<u8>) -> Option<Seq<u8>> {
    if !visible_ascii(v) {
        None
    } else {
        match authority_from_str(decode_utf8(v)) {
            None => None,
            Some(a) => authority_host_spec(a),
        }
    }
}

/// The canonical request host: at most one `Host` field; the target's
/// authority and the `Host` field must agree when both are present; one of
/// them is required.
pub open spec fn request_host_spec(req: RequestFacts) -> Option<Seq<u8>> {
    let host_lit = seq!['h', 'o', 's', 't'];
    if header_count(req.headers@, host_lit) > 1 {
        None
    } else {
        let from_target: Option<Option<Seq<u8>>> = match req.authority {
            Some(a) => Some(authority_host_spec(a@)),
            None => None,
        };
        let from_header: Option<Option<Seq<u8>>> = match first_header(req.headers@, host_lit) {
            Some(v) => Some(header_host_spec(v)),
            None => None,
        };
        match (from_target, from_header) {
            (Some(None), _) => None,
            (_, Some(None)) => None,
            (Some(Some(a)), Some(Some(h))) => if a == h {
                Some(a)
            } else {
                None
            },
            (Some(Some(a)), None) => Some(a),
            (None, Some(Some(h))) => Some(h),
            (None, None) => None,
        }
    }
}

fn header_host(v: &Vec<u8>) -> (r: Result<String, ()>)
    ensures
        r is Ok <==> header_host_spec(v@) is Some,
        r matches Ok(s) ==> utf8(s@) == header_host_spec(v@)->0,
{
    if !bytes_visible_ascii(v.as_slice()) {
        return Err(());
    }
    let text = ascii_string(v);
    proof {
        vstd::utf8::encode_utf8_decode_utf8(text@);
    }
    match AuthorityParts::parse(text.as_str()) {
        None => Err(()),
        Some(a) => canonical_authority_host(&a),
    }
}

/// The canonical host of a request.
pub fn request_host(request: &RequestFacts) -> (r: Result<String, ()>)
    ensures
        r is Ok <==> request_host_spec(*request) is Some,
        r matches Ok(s) ==> utf8(s@) == request_host_spec(*request)->0,
{
    let host_lit: [char; 4] = ['h', 'o', 's', 't'];
    let name = "host";
    proof {
        reveal_strlit("host");
        assert(name@ =~= seq!['h', 'o', 's', 't']);
    }
    if count_headers(&request.headers, name) > 1 {
        return Err(());
    }
    let from_target = match &request.authority {
        Some(a) => match canonical_authority_host(a) {
            Ok(h) => Some(h),
            Err(()) => {
                return Err(());
            },
        },
        None => None,
    };
    let from_header = match header_value(&request.headers, name) {
        Some(v) => match header_host(v) {
            Ok(h) => Some(h),
            Err(()) => {
                return Err(());
            },
        },
        None => None,
    };
    match (from_target, from_header) {
        (Some(a), Some(h)) => {
            if str_eq(a.as_str(), h.as_str()) {
                Ok(a)
            } else {
                proof {
                    vstd::utf8::encode_utf8_decode_utf8(a@);
                    vstd::utf8::encode_utf8_decode_utf8(h@);
                }
                Err(())
            }
        },
        (Some(a), None) => Ok(a),
        (None, Some(h)) => Ok(h),
        (None, None) => Err(()),
    }
}

/// Methods that are retried after a failed upstream attempt.
pub open spec fn idempotent_method(m: Seq<char>) -> bool {
    m == "GET"@ || m == "HEAD"@ || m == "OPTIONS"@ || m == "PUT"@ || m == "DELETE"@
}

/// Whether a request with this method may be retried.
pub fn is_idempotent_retry_method(method: &str) -> (r: bool)
    ensures
        r == idempotent_method(method@),
{
    str_eq(method, "GET") || str_eq(method, "HEAD") || str_eq(method, "OPTIONS") || str_eq(
        method,
        "PUT",
    ) || str_eq(method, "DELETE")
}

/// The lowercase bytes of `application/grpc`.
pub open spec fn grpc_prefix() -> Seq<u8> {
    utf8("application/grpc"@)
}

/// ASCII case folding of one byte.
pub open spec fn fold_byte(b: u8) -> int {
    if 0x41 <= b <= 0x5a {
        b + 32
    } else {
        b as int
    }
}

/// A `Content-Type` value that starts, ignoring ASCII case, with
/// `application/grpc`.
pub open spec fn grpc_content_type(v: Seq<u8>) -> bool {
    v.len() >= grpc_prefix().len() && forall|k: int|
        0 <= k < grpc_prefix().len() ==> fold_byte(#[trigger] v[k]) == fold_byte(grpc_prefix()[k])
}

/// Whether a `Content-Type` value names gRPC.
pub fn is_grpc_content_type(value: &[u8]) -> (r: bool)
    ensures
        r == grpc_content_type(value@),
{
    let prefix = "application/grpc".as_bytes();
    if value.len() < prefix.len() {
        return false;
    }
    let mut k: usize = 0;
    while k < prefix.len()
        invariant
            k <= prefix@.len(),
            prefix@ == grpc_prefix(),
            value@.len() >= prefix@.len(),
            forall|i: int| 0 <= i < k ==> fold_byte(#[trigger] value@[i]) == fold_byte(prefix@[i]),
        decreases prefix@.len() - k,
    {
        let a = value[k];
        let b = prefix[k];
        let fa: u32 = if 0x41 <= a && a <= 0x5a {
            a as u32 + 32
        } else {
            a as u32
        };
        let fb: u32 = if 0x41 <= b && b <= 0x5a {
            b as u32 + 32
        } else {
            b as u32
        };
        if fa != fb {
            return false;
        }
        k += 1;
    }
    true
}

pub open spec fn websocket_lit() -> Seq<char> {
    seq!['w', 'e', 'b', 's', 'o', 'c', 'k', 'e', 't']
}

pub open spec fn upgrade_lit() -> Seq<char> {
    seq!['u', 'p', 'g', 'r', 'a', 'd', 'e']
}

/// A WebSocket upgrade: a `GET` whose `Upgrade` field is `websocket` and
/// whose `Connection` fields list `upgrade`, both ignoring ASCII case.
pub open spec fn websocket_upgrade(req: RequestFacts) -> bool {
    &&& req.method@ == "GET"@
    &&& first_header(req.headers@, upgrade_lit()) matches Some(v) && visible_ascii(v) && {
        let c = ascii_chars(v);
        c.len() == websocket_lit().len() && forall|k: int|
            0 <= k < c.len() ==> fold_char(#[trigger] c[k]) == fold_char(websocket_lit()[k])
    }
    &&& header_lists_token(header_values(req.headers@, seq!['c', 'o', 'n', 'n', 'e', 'c', 't', 'i', 'o', 'n']), upgrade_lit())
}

/// Whether a request asks for a WebSocket upgrade.
pub fn is_websocket_upgrade(request: &RequestFacts) -> (r: bool)
    ensures
        r == websocket_upgrade(*request),
{
    let upgrade = "upgrade";
    let connection = "connection";
    proof {
        reveal_strlit("upgrade");
        reveal_strlit("connection");
        assert(upgrade@ =~= upgrade_lit());
        assert(connection@ =~= seq!['c', 'o', 'n', 'n', 'e', 'c', 't', 'i', 'o', 'n']);
    }
    if !str_eq(request.method.as_str(), "GET") {
        return false;
    }
    let v = match header_value(&request.headers, upgrade) {
        None => {
            return false;
        },
        Some(v) => v,
    };
    if !bytes_visible_ascii(v.as_slice()) || v.len() != 9 {
        return false;
    }
    let lit: [u8; 9] = [0x77, 0x65, 0x62, 0x73, 0x6f, 0x63, 0x6b, 0x65, 0x74];
    let mut k: usize = 0;
    while k < 9
        invariant
            k <= 9,
            v@.len() == 9,
            first_header(request.headers@, upgrade_lit()) == Some(v@),
            forall|i: int| 0 <= i < 9 ==> #[trigger] lit@[i] as char == websocket_lit()[i],
            forall|i: int|
                0 <= i < k ==> fold_char(#[trigger] ascii_chars(v@)[i]) == fold_char(
                    websocket_lit()[i],
                ),
        decreases 9 - k,
    {
        let a = v[k];
        let fa: u32 = if 0x41 <= a && a <= 0x5a {
            a as u32 + 32
        } else {
            a as u32
        };
        if fa != lit[k] as u32 {
            proof {
                let c = ascii_chars(v@);
                assert(c[k as int] == a as char);
                assert((a as char) as u32 == a as u32);
                assert(lit@[k as int] as char == websocket_lit()[k as int]);
                assert(0x61 <= lit@[k as int] <= 0x7a);
                assert(fold_char(websocket_lit()[k as int]) == lit@[k as int] as int);
                assert(fold_char(c[k as int]) != fold_char(websocket_lit()[k as int]));
            }
            return false;
        }
        k += 1;
    }
    let values = values_named(&request.headers, connection);
    let lit_up: [char; 7] = ['u', 'p', 'g', 'r', 'a', 'd', 'e'];
    assert(lit_up@ =~= upgrade_lit());
    proof {
        lemma_lists_token_views(
            values@,
            header_values(request.headers@, connection@),
            upgrade_lit(),
        );
    }
    lists_token(&values, lit_up.as_slice())
}

/// The values that are visible ASCII, in order.
pub open spec fn visible_views(vs: Seq<Vec<u8>>) -> Seq<Seq<u8>>
    decreases vs.len(),
{
    if vs.len() == 0 {
        Seq::empty()
    } else {
        let r = visible_views(vs.drop_last());
        if visible_ascii(vs.last()@) {
            r.push(vs.last()@)
        } else {
            r
        }
    }
}

pub open spec fn chunked_lit() -> Seq<char> {
    seq!['c', 'h', 'u', 'n', 'k', 'e', 'd']
}

/// The request target or its framing is unsafe to forward: `CONNECT`; an
/// absolute target over HTTP/1 or anything but an `https` authority over
/// HTTP/2; no canonical host; connection-specific fields or a `TE` other
/// than one `trailers` over HTTP/2; and any ambiguous body framing.
pub open spec fn target_unsafe(req: RequestFacts) -> bool {
    let h = req.headers@;
    let te = seq!['t', 'e'];
    let tes = visible_views(header_values(h, "transfer-encoding"@));
    let cl = header_count(h, "content-length"@);
    ||| req.method@ == "CONNECT"@
    ||| (!req.http2 && (req.scheme is Some || req.authority is Some))
    ||| (req.http2 && (!(req.scheme matches Some(s) && s@ == "https"@) || req.authority is None))
    ||| request_host_spec(req) is None
    ||| (req.http2 && (header_count(h, "connection"@) > 0 || header_count(h, "keep-alive"@) > 0
        || header_count(h, "proxy-connection"@) > 0 || header_count(h, upgrade_lit()) > 0))
    ||| (req.http2 && (header_count(h, te) > 1 || (first_header(h, te) matches Some(v) && v
        != utf8("trailers"@))))
    ||| (req.http2 && tes.len() > 0)
    ||| (cl > 0 && tes.len() > 0)
    ||| cl > 1
    ||| tes.len() > 1
    ||| (tes.len() > 0 && !fold_eq(ascii_chars(tes[0]), chunked_lit()))
}

fn visible_values(hs: &Vec<(String, Vec<u8>)>, name: &str) -> (r: Vec<Vec<u8>>)
    ensures
        byte_views(r@) == visible_views(header_values(hs@, name@)),
{
    let vals = values_named(hs, name);
    let ghost hv = header_values(hs@, name@);
    let mut out: Vec<Vec<u8>> = Vec::new();
    let mut i: usize = 0;
    while i < vals.len()
        invariant
            i <= vals@.len(),
            vals@.len() == hv.len(),
            forall|k: int| 0 <= k < vals@.len() ==> (#[trigger] vals@[k])@ == hv[k]@,
            out@.len() == visible_views(hv.take(i as int)).len(),
            byte_views(out@) == visible_views(hv.take(i as int)),
        decreases vals@.len() - i,
    {
        proof {
            assert(hv.take(i + 1).drop_last() =~= hv.take(i as int));
            assert(hv.take(i + 1).last() == hv[i as int]);
        }
        if bytes_visible_ascii(vals[i].as_slice()) {
            let ghost before = out@;
            let copy = vals[i].clone();
            out.push(copy);
            proof {
                assert forall|j: int| 0 <= j < out@.len() implies #[trigger] byte_views(out@)[j]
                    == visible_views(hv.take(i + 1))[j] by {
                    if j < before.len() {
                        assert(byte_views(before)[j] == visible_views(hv.take(i as int))[j]);
                    }
                }
                assert(byte_views(out@) =~= visible_views(hv.take(i + 1)));
            }
        }
        i += 1;
    }
    assert(hv.take(hv.len() as int) =~= hv);
    out
}

fn fold_eq_bytes(v: &Vec<u8>, lit: &[u8]) -> (r: bool)
    requires
        forall|k: int| 0 <= k < lit@.len() ==> 0x61 <= #[trigger] lit@[k] <= 0x7a || lit@[k] == 0x2d,
    ensures
        r == fold_eq(ascii_chars(v@), ascii_chars(lit@)),
{
    if v.len() != lit.len() {
        return false;
    }
    let mut k: usize = 0;
    while k < lit.len()
        invariant
            k <= lit@.len(),
            v@.len() == lit@.len(),
            forall|i: int| 0 <= i < lit@.len() ==> 0x61 <= #[trigger] lit@[i] <= 0x7a || lit@[i] == 0x2d,
            forall|i: int|
                0 <= i < k ==> fold_char(#[trigger] ascii_chars(v@)[i]) == fold_char(
                    ascii_chars(lit@)[i],
                ),
        decreases lit@.len() - k,
    {
        let a = v[k];
        let fa: u32 = if 0x41 <= a && a <= 0x5a {
            a as u32 + 32
        } else {
            a as u32
        };
        proof {
            assert(ascii_chars(v@)[k as int] == a as char);
            assert((a as char) as u32 == a as u32);
            assert(ascii_chars(lit@)[k as int] == lit@[k as int] as char);
            assert((lit@[k as int] as char) as u32 == lit@[k as int] as u32);
        }
        if fa != lit[k] as u32 {
            return false;
        }
        k += 1;
    }
    true
}

/// Rejects a request target or framing that is unsafe to forward, with
/// status 400.
pub fn reject_unsafe_request_target(request: &RequestFacts) -> (r: Option<u16>)
    ensures
        r is Some <==> target_unsafe(*request),
        r matches Some(status) ==> status == 400,
{
    let h = &request.headers;
    if str_eq(request.method.as_str(), "CONNECT") {
        return Some(400);
    }
    let https = match &request.scheme {
        Some(s) => str_eq(s.as_str(), "https"),
        None => false,
    };
    if (!request.http2 && (request.scheme.is_some() || request.authority.is_some())) || (
    request.http2 && (!https || request.authority.is_none())) {
        return Some(400);
    }
    if request_host(request).is_err() {
        return Some(400);
    }
    if request.http2 && (count_headers(h, "connection") > 0 || count_headers(h, "keep-alive") > 0
        || count_headers(h, "proxy-connection") > 0 || count_headers(h, "upgrade") > 0) {
        proof {
            reveal_strlit("upgrade");
            assert("upgrade"@ =~= upgrade_lit());
        }
        return Some(400);
    }
    proof {
        reveal_strlit("upgrade");
        assert("upgrade"@ =~= upgrade_lit());
        reveal_strlit("te");
        assert("te"@ =~= seq!['t', 'e']);
    }
    let te_count = count_headers(h, "te");
    let te_bad = match header_value(h, "te") {
        Some(v) => {
            let expected = "trailers".as_bytes();
            !crate::text::slice_eq(v.as_slice(), expected)
        },
        None => false,
    };
    if request.http2 && (te_count > 1 || te_bad) {
        return Some(400);
    }
    let tes = visible_values(h, "transfer-encoding");
    let cl = count_headers(h, "content-length");
    if (request.http2 && tes.len() > 0) || (cl > 0 && tes.len() > 0) || cl > 1 || tes.len() > 1 {
        return Some(400);
    }
    if tes.len() > 0 {
        let lit: [u8; 7] = [0x63, 0x68, 0x75, 0x6e, 0x6b, 0x65, 0x64];
        proof {
            assert(ascii_chars(lit@) =~= chunked_lit());
            assert(tes@[0]@ == byte_views(tes@)[0]);
        }
        if !fold_eq_bytes(&tes[0], lit.as_slice()) {
            return Some(400);
        }
    }
    None
}

} // verus!
