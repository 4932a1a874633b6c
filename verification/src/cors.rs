//! Exact-origin CORS: preflight answers and the headers an actual response
//! carries.

use vstd::prelude::*;
use vstd::string::{StrSliceExecFns, StringExecFns};
use vstd::utf8::decode_utf8;
use crate::schema::{Config, MiddlewareConfig, RouteConfig};
use crate::text::{utf8, utf8_text, str_eq, str_chars, trimmed, chars_trim, lemma_ascii_valid_utf8};
use crate::web::{is_header_value, header_value_ok, parse_header_name};
use crate::route::visible_ascii;
use crate::negotiate::{find_upto, lemma_find_upto, chars_find_upto, bytes_visible, lists_token, header_lists_token};
use crate::pipeline::{MiddlewareKind, route_policy, policy_of_kind, name_ok, lowered};
use crate::error::{decimal_text, decimal_u64};
use crate::forwarding::string_views;

verus! {

/// Longest `Access-Control-Request-Headers` value read.
pub const MAX_REQUEST_HEADERS_BYTES: usize = 4096;

/// Most header names a preflight may request.
pub const MAX_REQUESTED_HEADERS: usize = 64;

/// The text of a field value `http::HeaderValue::to_str` accepts: visible
/// ASCII and tabs.
pub open spec fn value_text(v: Seq<u8>) -> Option<Seq<char>> {
    if visible_ascii(v) {
        Some(decode_utf8(v))
    } else {
        None
    }
}

/// The text of a readable field value.
pub fn text_of(v: &Vec<u8>) -> (r: Option<String>)
    ensures
        match value_text(v@) {
            Some(t) => r matches Some(s) && s@ == t,
            None => r is None,
        },
{
    if !bytes_visible(v) {
        return None;
    }
    proof {
        lemma_ascii_valid_utf8(v@);
    }
    match utf8_text(v.as_slice()) {
        Some(t) => {
            proof {
                vstd::utf8::encode_utf8_decode_utf8(t@);
            }
            Some(String::from_str(t))
        },
        None => None,
    }
}

/// The `Access-Control-Allow-Origin` a policy grants a request origin: `*`
/// when the policy lists `*`; the origin itself when listed exactly;
/// nothing for an unreadable or unlisted origin.
pub open spec fn origin_grant(origins: Seq<String>, origin: Seq<u8>) -> Option<Seq<char>> {
    match value_text(origin) {
        None => None,
        Some(t) => if exists|i: int| 0 <= i < origins.len() && (#[trigger] origins[i])@ == "*"@ {
            Some("*"@)
        } else if exists|i: int| 0 <= i < origins.len() && (#[trigger] origins[i])@ == t {
            Some(t)
        } else {
            None
        },
    }
}

fn lists(items: &Vec<String>, text: &str) -> (r: bool)
    ensures
        r == exists|i: int| 0 <= i < items@.len() && (#[trigger] items@[i])@ == text@,
{
    let mut i: usize = 0;
    while i < items.len()
        invariant
            i <= items@.len(),
            forall|k: int| 0 <= k < i ==> (#[trigger] items@[k])@ != text@,
        decreases items@.len() - i,
    {
        if str_eq(items[i].as_str(), text) {
            return true;
        }
        i += 1;
    }
    false
}

/// The origin a policy grants.
pub fn allowed_origin(origins: &Vec<String>, origin: &Vec<u8>) -> (r: Option<String>)
    ensures
        match origin_grant(origins@, origin@) {
            Some(g) => r matches Some(s) && s@ == g,
            None => r is None,
        },
{
    let text = match text_of(origin) {
        Some(t) => t,
        None => {
            return None;
        },
    };
    proof {
        reveal_strlit("*");
    }
    if lists(origins, "*") {
        return Some(String::from_str("*"));
    }
    if !lists(origins, text.as_str()) {
        return None;
    }
    Some(text)
}

/// The trimmed `,`-separated items of `c` from position `s` on.
pub open spec fn list_items(c: Seq<char>, s: int) -> Seq<Seq<char>>
    decreases c.len() - s,
{
    if s < 0 || s > c.len() {
        Seq::empty()
    } else {
        let e = find_upto(c, ',', s, c.len() as int);
        if e >= c.len() || e < s {
            seq![trimmed(c, s, e)]
        } else {
            seq![trimmed(c, s, e)] + list_items(c, e + 1)
        }
    }
}

/// What `Access-Control-Request-Headers` asks for: nothing when absent;
/// refused when repeated, unreadable, over the byte bound, with more than
/// the item bound, or with an item that is no header name; else the items'
/// lowercase names.
pub open spec fn requested_ok(values: Seq<Vec<u8>>) -> bool {
    values.len() == 0 || (values.len() == 1 && value_text(values[0]@) is Some && values[0]@.len()
        <= MAX_REQUEST_HEADERS_BYTES && list_items(decode_utf8(values[0]@), 0).len()
        <= MAX_REQUESTED_HEADERS && forall|i: int|
        0 <= i < list_items(decode_utf8(values[0]@), 0).len() ==> name_ok(
            #[trigger] list_items(decode_utf8(values[0]@), 0)[i],
        ))
}

pub open spec fn requested_names(values: Seq<Vec<u8>>) -> Seq<Seq<char>> {
    if values.len() == 0 {
        Seq::empty()
    } else {
        list_items(decode_utf8(values[0]@), 0)
    }
}

pub proof fn lemma_list_items_step(c: Seq<char>, s: int)
    requires
        0 <= s <= c.len(),
    ensures
        ({
            let e = find_upto(c, ',', s, c.len() as int);
            &&& s <= e <= c.len()
            &&& e < c.len() ==> list_items(c, s) == seq![trimmed(c, s, e)] + list_items(c, e + 1)
            &&& e >= c.len() ==> list_items(c, s) == seq![trimmed(c, s, e)]
        }),
{
    lemma_find_upto(c, ',', s, c.len() as int);
}

/// The header names a preflight requests.
pub fn requested_headers(values: &Vec<Vec<u8>>) -> (r: Result<Vec<String>, ()>)
    ensures
        r is Ok <==> requested_ok(values@),
        r matches Ok(names) ==> names@.len() == requested_names(values@).len() && forall|i: int|
            0 <= i < names@.len() ==> lowered(requested_names(values@)[i], (#[trigger] names@[i])@),
{
    if values.len() == 0 {
        return Ok(Vec::new());
    }
    if values.len() > 1 {
        return Err(());
    }
    let text = match text_of(&values[0]) {
        Some(t) => t,
        None => {
            return Err(());
        },
    };
    if values[0].len() > MAX_REQUEST_HEADERS_BYTES {
        return Err(());
    }
    let c = str_chars(text.as_str());
    let ghost all = list_items(c@, 0);
    let n = c.len();
    let mut names: Vec<String> = Vec::new();
    let mut s: usize = 0;
    loop
        invariant
            n == c@.len(),
            values@.len() == 1,
            value_text(values@[0]@) is Some,
            values@[0]@.len() <= MAX_REQUEST_HEADERS_BYTES,
            c@ == text@,
            text@ == decode_utf8(values@[0]@),
            all == list_items(c@, 0),
            s <= n,
            names@.len() <= MAX_REQUESTED_HEADERS,
            names@.len() <= all.len(),
            all == all.take(names@.len() as int) + list_items(c@, s as int),
            forall|i: int| 0 <= i < names@.len() ==> name_ok(#[trigger] all[i]),
            forall|i: int| 0 <= i < names@.len() ==> lowered(all[i], (#[trigger] names@[i])@),
        decreases n - s,
    {
        proof {
            lemma_list_items_step(c@, s as int);
        }
        let e = chars_find_upto(&c, ',', s, n);
        let (a, b) = chars_trim(&c, s, e);
        let k = names.len();
        if k == MAX_REQUESTED_HEADERS {
            proof {
                assert(all.len() > MAX_REQUESTED_HEADERS);
            }
            return Err(());
        }
        let item = text.as_str().substring_char(a, b);
        proof {
            assert(item@ == trimmed(c@, s as int, e as int));
            assert(all[k as int] == item@);
        }
        match parse_header_name(item) {
            Some(name) => names.push(name),
            None => {
                proof {
                    assert(!name_ok(all[k as int]));
                }
                return Err(());
            },
        }
        if e >= n {
            proof {
                assert(all =~= all.take(names@.len() as int));
            }
            return Ok(names);
        }
        proof {
            assert(all.take(names@.len() as int) =~= all.take(k as int) + seq![item@]);
        }
        s = e + 1;
    }
}

/// The answer to an allowed preflight.
#[derive(Clone, Debug)]
pub struct Preflight {
    pub allow_origin: String,
    pub allow_methods: String,
    pub allow_headers: Option<String>,
    pub allow_credentials: bool,
    pub max_age: Option<String>,
}

/// Texts joined with `, `.
pub open spec fn joined(items: Seq<String>) -> Seq<char>
    decreases items.len(),
{
    if items.len() == 0 {
        Seq::empty()
    } else if items.len() == 1 {
        items[0]@
    } else {
        joined(items.drop_last()) + ", "@ + items.last()@
    }
}

fn join(items: &Vec<String>) -> (r: String)
    ensures
        r@ == joined(items@),
{
    let mut out = String::new();
    let mut i: usize = 0;
    proof {
        reveal_strlit(", ");
    }
    while i < items.len()
        invariant
            i <= items@.len(),
            out@ == joined(items@.take(i as int)),
        decreases items@.len() - i,
    {
        proof {
            assert(items@.take(i + 1).drop_last() =~= items@.take(i as int));
        }
        if i > 0 {
            out.append(", ");
        }
        out.append(items[i].as_str());
        proof {
            if i == 0 {
                assert(out@ =~= items@[0]@);
            }
        }
        i += 1;
    }
    assert(items@.take(items@.len() as int) =~= items@);
    out
}

pub open spec fn listed(allowed: Seq<String>, name: Seq<char>) -> bool {
    exists|j: int| 0 <= j < allowed.len() && (#[trigger] allowed[j])@ == name
}

pub open spec fn all_listed(names: Seq<Seq<char>>, allowed: Seq<String>) -> bool {
    forall|i: int| 0 <= i < names.len() ==> listed(allowed, #[trigger] names[i])
}

/// Lowercase forms of one name agree.
pub proof fn lemma_lowered_unique(x: Seq<char>, a: Seq<char>, b: Seq<char>)
    requires
        lowered(x, a),
        lowered(x, b),
    ensures
        a == b,
{
    vstd::utf8::encode_utf8_decode_utf8(a);
    vstd::utf8::encode_utf8_decode_utf8(b);
}

fn all_requested_listed(requested: &Vec<String>, allowed: &Vec<String>) -> (r: bool)
    ensures
        r == all_listed(string_views(requested@), allowed@),
{
    let ghost names = string_views(requested@);
    let mut i: usize = 0;
    while i < requested.len()
        invariant
            i <= requested@.len(),
            names == string_views(requested@),
            forall|k: int| 0 <= k < i ==> listed(allowed@, #[trigger] names[k]),
        decreases requested@.len() - i,
    {
        if !lists(allowed, requested[i].as_str()) {
            assert(names[i as int] == requested@[i as int]@);
            return false;
        }
        assert(names[i as int] == requested@[i as int]@);
        i += 1;
    }
    true
}

/// Whether a preflight is allowed, given the lowercase names it requests.
pub open spec fn preflight_allowed(
    policy: MiddlewareConfig,
    origin: Seq<Vec<u8>>,
    request_method: Seq<Vec<u8>>,
    requested: Seq<Seq<char>>,
) -> bool {
    match policy {
        MiddlewareConfig::Cors { origins, methods, headers, .. } => {
            &&& origin.len() == 1
            &&& origin_grant(origins@, origin[0]@) is Some
            &&& request_method.len() == 1
            &&& value_text(request_method[0]@) matches Some(m) && exists|j: int|
                0 <= j < methods@.len() && (#[trigger] methods@[j])@ == m
            &&& all_listed(requested, headers@)
            &&& header_value_ok(utf8(joined(methods@)))
            &&& headers@.len() > 0 ==> header_value_ok(utf8(joined(headers@)))
        },
        _ => false,
    }
}

/// The route's answer to a CORS preflight: `Ok(None)` without a CORS policy
/// or for a request that is no preflight (not `OPTIONS`, or without
/// `Access-Control-Request-Method`); `Err(())` for a refused preflight.
pub fn preflight(
    config: &Config,
    route: &RouteConfig,
    method: &str,
    origin: &Vec<Vec<u8>>,
    request_method: &Vec<Vec<u8>>,
    request_headers: &Vec<Vec<u8>>,
) -> (r: Result<Option<Preflight>, ()>)
    ensures
        match route_policy(*config, *route, MiddlewareKind::Cors) {
            Some(p) => if method@ != "OPTIONS"@ || request_method@.len() == 0 {
                r == Ok::<Option<Preflight>, ()>(None)
            } else {
                &&& r is Ok <==> requested_ok(request_headers@) && exists|names: Seq<Seq<char>>|
                    names.len() == requested_names(request_headers@).len() && (forall|i: int|
                    0 <= i < names.len() ==> lowered(requested_names(request_headers@)[i], #[trigger] names[i]))
                    && preflight_allowed(p, origin@, request_method@, names)
                &&& r matches Ok(o) ==> o matches Some(answer) && match p {
                    MiddlewareConfig::Cors { origins, methods, headers, allow_credentials, max_age_secs } => {
                        &&& origin_grant(origins@, origin@[0]@) == Some(answer.allow_origin@)
                        &&& answer.allow_methods@ == joined(methods@)
                        &&& (answer.allow_headers matches Some(h) ==> h@ == joined(headers@))
                        &&& (answer.allow_headers is Some <==> headers@.len() > 0)
                        &&& answer.allow_credentials == allow_credentials
                        &&& (answer.max_age matches Some(a) ==> a@ == decimal_text(max_age_secs as nat))
                        &&& (answer.max_age is Some <==> max_age_secs > 0)
                    },
                    _ => false,
                }
            },
            None => r == Ok::<Option<Preflight>, ()>(None),
        },
{
    let p = match policy_of_kind(config, route, MiddlewareKind::Cors) {
        Some(p) => p,
        None => {
            return Ok(None);
        },
    };
    let (origins, methods, headers, allow_credentials, max_age_secs) = match p {
        MiddlewareConfig::Cors { origins, methods, headers, allow_credentials, max_age_secs } => (
            origins,
            methods,
            headers,
            *allow_credentials,
            *max_age_secs,
        ),
        _ => {
            return Ok(None);
        },
    };
    proof {
        reveal_strlit("OPTIONS");
    }
    if !str_eq(method, "OPTIONS") || request_method.len() == 0 {
        return Ok(None);
    }
    if origin.len() != 1 {
        return Err(());
    }
    let allow_origin = match allowed_origin(origins, &origin[0]) {
        Some(o) => o,
        None => {
            return Err(());
        },
    };
    if request_method.len() != 1 {
        return Err(());
    }
    let m = match text_of(&request_method[0]) {
        Some(m) => m,
        None => {
            return Err(());
        },
    };
    if !lists(methods, m.as_str()) {
        return Err(());
    }
    let requested = match requested_headers(request_headers) {
        Ok(n) => n,
        Err(()) => {
            return Err(());
        },
    };
    if !all_requested_listed(&requested, headers) {
        proof {
            assert forall|names2: Seq<Seq<char>>|
                names2.len() == requested_names(request_headers@).len() && (forall|k: int|
                    0 <= k < names2.len() ==> lowered(
                        requested_names(request_headers@)[k],
                        #[trigger] names2[k],
                    )) implies !preflight_allowed(*p, origin@, request_method@, names2) by {
                assert forall|k: int| 0 <= k < names2.len() implies names2[k] == requested@[k]@ by {
                    lemma_lowered_unique(requested_names(request_headers@)[k], names2[k], requested@[k]@);
                }
                assert(names2 =~= string_views(requested@));
            }
        }
        return Err(());
    }
    let allow_methods = join(methods);
    if !is_header_value(allow_methods.as_str()) {
        return Err(());
    }
    let allow_headers = if headers.len() > 0 {
        let h = join(headers);
        if !is_header_value(h.as_str()) {
            return Err(());
        }
        Some(h)
    } else {
        None
    };
    let max_age = if max_age_secs > 0 {
        Some(decimal_u64(max_age_secs))
    } else {
        None
    };
    proof {
        let names = string_views(requested@);
        assert(all_listed(names, headers@));
        assert(preflight_allowed(*p, origin@, request_method@, names));
    }
    Ok(
        Some(
            Preflight {
                allow_origin,
                allow_methods,
                allow_headers,
                allow_credentials,
                max_age,
            },
        ),
    )
}

/// Response headers every CORS policy first strips from an upstream
/// response.
pub fn stripped_response_headers() -> (r: [&'static str; 6])
    ensures
        r[0]@ == "access-control-allow-origin"@,
        r[1]@ == "access-control-allow-credentials"@,
        r[2]@ == "access-control-allow-methods"@,
        r[3]@ == "access-control-allow-headers"@,
        r[4]@ == "access-control-expose-headers"@,
        r[5]@ == "access-control-max-age"@,
{
    [
        "access-control-allow-origin",
        "access-control-allow-credentials",
        "access-control-allow-methods",
        "access-control-allow-headers",
        "access-control-expose-headers",
        "access-control-max-age",
    ]
}

/// CORS headers an actual response carries after the upstream's own were
/// stripped.
#[derive(Clone, Debug)]
pub struct CorsResponse {
    pub allow_origin: Option<String>,
    pub allow_credentials: bool,
    pub add_vary_origin: bool,
}

pub open spec fn origin_lit() -> Seq<char> {
    seq!['o', 'r', 'i', 'g', 'i', 'n']
}

/// The CORS headers of an actual response: `None` without a CORS policy.
/// A single granted origin gets `Access-Control-Allow-Origin`, the
/// credentials flag of the policy, and `Vary: Origin` unless `Vary` already
/// lists `Origin` or `*`; any other request gets no CORS header.
pub fn response_headers(
    config: &Config,
    route: &RouteConfig,
    origin: &Vec<Vec<u8>>,
    vary: &Vec<Vec<u8>>,
) -> (r: Option<CorsResponse>)
    ensures
        match route_policy(*config, *route, MiddlewareKind::Cors) {
            Some(MiddlewareConfig::Cors { origins, allow_credentials, .. }) => r matches Some(c) && if origin@.len()
                == 1 && origin_grant(origins@, origin@[0]@) is Some {
                &&& c.allow_origin matches Some(a) && Some(a@) == origin_grant(origins@, origin@[0]@)
                &&& c.allow_credentials == allow_credentials
                &&& c.add_vary_origin == !(header_lists_token(vary@, origin_lit())
                    || header_lists_token(vary@, seq!['*']))
            } else {
                c.allow_origin is None && !c.allow_credentials && !c.add_vary_origin
            },
            _ => r is None,
        },
{
    let (origins, allow_credentials) = match policy_of_kind(config, route, MiddlewareKind::Cors) {
        Some(MiddlewareConfig::Cors { origins, allow_credentials, .. }) => (origins, *allow_credentials),
        _ => {
            return None;
        },
    };
    let none = CorsResponse { allow_origin: None, allow_credentials: false, add_vary_origin: false };
    if origin.len() != 1 {
        return Some(none);
    }
    let granted = match allowed_origin(origins, &origin[0]) {
        Some(g) => g,
        None => {
            return Some(none);
        },
    };
    let lit: [char; 6] = ['o', 'r', 'i', 'g', 'i', 'n'];
    let star: [char; 1] = ['*'];
    assert(lit@ =~= origin_lit());
    assert(star@ =~= seq!['*']);
    let listed = lists_token(vary, lit.as_slice()) || lists_token(vary, star.as_slice());
    Some(
        CorsResponse {
            allow_origin: Some(granted),
            allow_credentials,
            add_vary_origin: !listed,
        },
    )
}

} // verus!
