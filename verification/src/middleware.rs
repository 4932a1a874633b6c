//! Middleware policy rules: header values and names, rewrite paths, header
//! mutations, ForwardAuth header allowlists, HSTS and every middleware kind.

use vstd::prelude::*;
use crate::text::{utf8, str_eq, starts_with, byte_is_alnum, byte_is_upper, slice_has_byte,
    char_is_whitespace, is_alnum, is_graphic, is_upper, has_byte,
    is_ws_char, no_duplicates, slice_starts_with, ci_eq, ci_starts_with,
    find_char, trimmed, skip_ws, lower_eq, chars_ci_eq, chars_ci_starts_with, chars_find, chars_trim, str_chars,
    lemma_find_char};
use crate::checks::{contains_string, distinct_strings, strings_distinct, vec_contains_str,
    canonical_path_ok, is_canonical_path};
use crate::error::{ConfigError, join2, join3, join4};
use crate::web::{header_value_ok, canonical_header_name, parse_header_name, is_header_value, tchar};
use crate::map::OrderedMap;
use crate::net::Cidr;
use crate::schema::{MiddlewareConfig, CompressionEncoding};
use crate::web::{url_from_str, uri_from_str, token_ok, parse_method, parse_uri, WebUrl};
use crate::naming::{id_ok, cert_host_ok, valid_id, valid_certificate_host, id_message,
    cert_host_message};
use crate::secret::{secret_ref_ok, secret_ref_valid};

verus! {

/// A nonempty header value of at most 1024 bytes that `http` accepts.
pub open spec fn header_value_valid(v: Seq<char>) -> bool {
    1 <= utf8(v).len() <= 1024 && header_value_ok(utf8(v))
}

/// Validates one configured header value.
pub fn validate_header_value(id: &str, field: &str, value: &str) -> (r: Result<(), ConfigError>)
    ensures
        r is Ok <==> header_value_valid(value@),
        r matches Err(ConfigError::Invalid(m)) ==> m@ == header_value_message(id@, field@),
{
    let n = value.as_bytes().len();
    if n == 0 || n > 1024 || !is_header_value(value) {
        return Err(
            ConfigError::Invalid(
                join4(
                    "middleware ",
                    id,
                    " has an invalid ",
                    join2(field, " header value").as_str(),
                ),
            ),
        );
    }
    Ok(())
}

/// Validates a rewrite path or prefix: the canonical path rules.
pub fn validate_rewrite_path(id: &str, path: &str, prefix: bool) -> (r: Result<(), ConfigError>)
    ensures
        r is Ok <==> canonical_path_ok(utf8(path@), prefix),
        r matches Err(ConfigError::Invalid(m)) ==> m@ == mw_message(
            id@,
            " has a non-canonical rewrite path"@,
        ),
{
    if !is_canonical_path(path, prefix) {
        return Err(
            ConfigError::Invalid(join3("middleware ", id, " has a non-canonical rewrite path")),
        );
    }
    Ok(())
}

/// Header names that a mutation may never touch; `www-authenticate` is also
/// protected on responses.
pub open spec fn prohibited_mutation_spec(n: Seq<char>, request: bool) -> bool {
    ||| n == "authorization"@ || n == "access-control-allow-credentials"@
    ||| n == "access-control-allow-headers"@ || n == "access-control-allow-methods"@
    ||| n == "access-control-allow-origin"@ || n == "access-control-expose-headers"@
    ||| n == "access-control-max-age"@ || n == "connection"@ || n == "content-encoding"@
    ||| n == "content-length"@ || n == "content-security-policy"@ || n == "cookie"@
    ||| n == "forwarded"@ || n == "host"@ || n == "keep-alive"@ || n == "proxy-authenticate"@
    ||| n == "proxy-authorization"@ || n == "proxy-connection"@ || n == "set-cookie"@
    ||| n == "strict-transport-security"@ || n == "te"@ || n == "trailer"@
    ||| n == "transfer-encoding"@ || n == "upgrade"@ || n == "x-aegisproxy-user"@
    ||| n == "x-forwarded-for"@ || n == "x-forwarded-host"@ || n == "x-forwarded-method"@
    ||| n == "x-forwarded-port"@ || n == "x-forwarded-proto"@ || n == "x-forwarded-uri"@
    ||| n == "x-original-uri"@ || n == "x-real-ip"@ || n == "x-request-id"@
    ||| !request && n == "www-authenticate"@
}

/// Whether a canonical header name is protected from mutation.
pub fn prohibited_mutation_header(name: &str, request: bool) -> (r: bool)
    ensures
        r == prohibited_mutation_spec(name@, request),
{
    str_eq(name, "authorization") || str_eq(name, "access-control-allow-credentials") || str_eq(
        name,
        "access-control-allow-headers",
    ) || str_eq(name, "access-control-allow-methods") || str_eq(
        name,
        "access-control-allow-origin",
    ) || str_eq(name, "access-control-expose-headers") || str_eq(name, "access-control-max-age")
        || str_eq(name, "connection") || str_eq(name, "content-encoding") || str_eq(
        name,
        "content-length",
    ) || str_eq(name, "content-security-policy") || str_eq(name, "cookie") || str_eq(
        name,
        "forwarded",
    ) || str_eq(name, "host") || str_eq(name, "keep-alive") || str_eq(name, "proxy-authenticate")
        || str_eq(name, "proxy-authorization") || str_eq(name, "proxy-connection") || str_eq(
        name,
        "set-cookie",
    ) || str_eq(name, "strict-transport-security") || str_eq(name, "te") || str_eq(
        name,
        "trailer",
    ) || str_eq(name, "transfer-encoding") || str_eq(name, "upgrade") || str_eq(
        name,
        "x-aegisproxy-user",
    ) || str_eq(name, "x-forwarded-for") || str_eq(name, "x-forwarded-host") || str_eq(
        name,
        "x-forwarded-method",
    ) || str_eq(name, "x-forwarded-port") || str_eq(name, "x-forwarded-proto") || str_eq(
        name,
        "x-forwarded-uri",
    ) || str_eq(name, "x-original-uri") || str_eq(name, "x-real-ip") || str_eq(
        name,
        "x-request-id",
    ) || (!request && str_eq(name, "www-authenticate"))
}

/// A mutable header name: canonical, at most 128 bytes, not protected.
pub open spec fn mutable_header_ok(v: Seq<char>, request: bool) -> bool {
    utf8(v).len() <= 128 && canonical_header_name(utf8(v)) && !prohibited_mutation_spec(
        v,
        request,
    )
}

/// The message of the rule that mutated header name `v` breaks.
pub open spec fn mutable_header_error(id: Seq<char>, side: Seq<char>, v: Seq<char>, request: bool) -> Option<
    Seq<char>,
> {
    if !(1 <= utf8(v).len() <= 65535 && forall|i: int|
        0 <= i < utf8(v).len() ==> tchar(#[trigger] utf8(v)[i])) {
        Some("middleware "@ + id + " has an invalid "@ + (side + " header name"@))
    } else if !mutable_header_ok(v, request) {
        Some("middleware "@ + id + (" cannot mutate protected "@ + side + " header "@ + v))
    } else {
        None
    }
}

/// The message `middleware <id> has ambiguous <side> header mutations`.
pub open spec fn ambiguous_message(id: Seq<char>, side: Seq<char>) -> Seq<char> {
    "middleware "@ + id + (" has ambiguous "@ + side + " header mutations"@)
}

/// The first invalid value of `values` from position `k` on, as its message.
pub open spec fn values_error(id: Seq<char>, side: Seq<char>, values: Seq<String>, k: int) -> Option<
    Seq<char>,
>
    decreases values.len() - k,
{
    if 0 <= k < values.len() {
        if !header_value_valid(values[k]@) {
            Some(header_value_message(id, side))
        } else {
            values_error(id, side, values, k + 1)
        }
    } else {
        None
    }
}

/// The first error of the set mutations from position `i` on.
pub open spec fn set_error(id: Seq<char>, side: Seq<char>, se: Seq<(String, String)>, request: bool, i: int) -> Option<
    Seq<char>,
>
    decreases se.len() - i,
{
    if 0 <= i < se.len() {
        if mutable_header_error(id, side, se[i].0@, request) is Some {
            mutable_header_error(id, side, se[i].0@, request)
        } else if !header_value_valid(se[i].1@) {
            Some(header_value_message(id, side))
        } else {
            set_error(id, side, se, request, i + 1)
        }
    } else {
        None
    }
}

/// The first error of the add mutations from position `i` on.
pub open spec fn add_error(
    id: Seq<char>,
    side: Seq<char>,
    se: Seq<(String, String)>,
    ae: Seq<(String, Vec<String>)>,
    request: bool,
    i: int,
) -> Option<Seq<char>>
    decreases ae.len() - i,
{
    if 0 <= i < ae.len() {
        if mutable_header_error(id, side, ae[i].0@, request) is Some {
            mutable_header_error(id, side, ae[i].0@, request)
        } else if !(1 <= ae[i].1@.len() <= 8) || key_in(se, ae[i].0@) || key_in(
            ae.take(i),
            ae[i].0@,
        ) {
            Some(ambiguous_message(id, side))
        } else if values_error(id, side, ae[i].1@, 0) is Some {
            values_error(id, side, ae[i].1@, 0)
        } else {
            add_error(id, side, se, ae, request, i + 1)
        }
    } else {
        None
    }
}

/// The first error of the remove mutations from position `i` on.
pub open spec fn remove_error(
    id: Seq<char>,
    side: Seq<char>,
    se: Seq<(String, String)>,
    ae: Seq<(String, Vec<String>)>,
    remove: Seq<String>,
    request: bool,
    i: int,
) -> Option<Seq<char>>
    decreases remove.len() - i,
{
    if 0 <= i < remove.len() {
        if mutable_header_error(id, side, remove[i]@, request) is Some {
            mutable_header_error(id, side, remove[i]@, request)
        } else if contains_string(remove.take(i), remove[i]@) || key_in(se, remove[i]@) || key_in(
            ae,
            remove[i]@,
        ) {
            Some(ambiguous_message(id, side))
        } else {
            remove_error(id, side, se, ae, remove, request, i + 1)
        }
    } else {
        None
    }
}

/// The message of the first rule that one side's mutations break.
pub open spec fn mutations_error(
    id: Seq<char>,
    side: Seq<char>,
    se: Seq<(String, String)>,
    ae: Seq<(String, Vec<String>)>,
    remove: Seq<String>,
    request: bool,
) -> Option<Seq<char>> {
    if set_error(id, side, se, request, 0) is Some {
        set_error(id, side, se, request, 0)
    } else if add_error(id, side, se, ae, request, 0) is Some {
        add_error(id, side, se, ae, request, 0)
    } else {
        remove_error(id, side, se, ae, remove, request, 0)
    }
}

/// The message of the first header-mutation rule that is broken.
pub open spec fn header_mutation_error(
    id: Seq<char>,
    request_set: Seq<(String, String)>,
    request_add: Seq<(String, Vec<String>)>,
    request_remove: Seq<String>,
    response_set: Seq<(String, String)>,
    response_add: Seq<(String, Vec<String>)>,
    response_remove: Seq<String>,
) -> Option<Seq<char>> {
    if mutations_error(id, "request"@, request_set, request_add, request_remove, true) is Some {
        mutations_error(id, "request"@, request_set, request_add, request_remove, true)
    } else if mutations_error(id, "response"@, response_set, response_add, response_remove, false)
        is Some {
        mutations_error(id, "response"@, response_set, response_add, response_remove, false)
    } else if !(1 <= request_set.len() + added_values(request_add) + request_remove.len()
        + response_set.len() + added_values(response_add) + response_remove.len() <= 64) {
        Some(mw_message(id, " header mutation count is outside 1..=64"@))
    } else {
        None
    }
}

/// Validates a header name that a mutation sets, adds or removes.
pub fn validate_mutable_header(id: &str, side: &str, value: &str, request: bool) -> (r: Result<
    (),
    ConfigError,
>)
    ensures
        r is Ok <==> mutable_header_ok(value@, request),
        match mutable_header_error(id@, side@, value@, request) {
            Some(m) => r matches Err(ConfigError::Invalid(e)) && e@ == m,
            None => r is Ok,
        },
{
    match parse_header_name(value) {
        None => Err(
            ConfigError::Invalid(
                join4("middleware ", id, " has an invalid ", join2(side, " header name").as_str()),
            ),
        ),
        Some(name) => {
            if value.as_bytes().len() > 128 || !str_eq(name.as_str(), value)
                || prohibited_mutation_header(name.as_str(), request) {
                let what = join4(" cannot mutate protected ", side, " header ", value);
                Err(ConfigError::Invalid(join3("middleware ", id, what.as_str())))
            } else {
                Ok(())
            }
        },
    }
}

/// Whether some entry of `s` has key `k`.
pub open spec fn key_in<V>(s: Seq<(String, V)>, k: Seq<char>) -> bool {
    exists|i: int| 0 <= i < s.len() && (#[trigger] s[i]).0@ == k
}

/// Set, add and remove lists name valid, mutable headers; each name is
/// touched by one operation only; added value lists hold 1..=8 values.
pub open spec fn mutations_ok(
    set: Seq<(String, String)>,
    add: Seq<(String, Vec<String>)>,
    remove: Seq<String>,
    request: bool,
) -> bool {
    &&& forall|i: int|
        0 <= i < set.len() ==> mutable_header_ok((#[trigger] set[i]).0@, request)
            && header_value_valid(set[i].1@)
    &&& forall|i: int|
        0 <= i < add.len() ==> {
            &&& mutable_header_ok((#[trigger] add[i]).0@, request)
            &&& 1 <= add[i].1@.len() <= 8
            &&& !key_in(set, add[i].0@)
            &&& !key_in(add.take(i), add[i].0@)
            &&& forall|k: int| 0 <= k < add[i].1@.len() ==> header_value_valid(add[i].1@[k]@)
        }
    &&& forall|i: int|
        0 <= i < remove.len() ==> {
            &&& mutable_header_ok((#[trigger] remove[i])@, request)
            &&& !contains_string(remove.take(i), remove[i]@)
            &&& !key_in(set, remove[i]@)
            &&& !key_in(add, remove[i]@)
        }
}

fn entries_have_key<V>(m: &OrderedMap<V>, upto: usize, k: &str) -> (r: bool)
    requires
        upto <= m.spec_entries().len(),
    ensures
        r == key_in(m.spec_entries().take(upto as int), k@),
{
    let mut i: usize = 0;
    while i < upto
        invariant
            upto <= m.spec_entries().len(),
            i <= upto,
            forall|j: int| 0 <= j < i ==> (#[trigger] m.spec_entries()[j]).0@ != k@,
        decreases upto - i,
    {
        let (key, _) = m.entry(i);
        if str_eq(key.as_str(), k) {
            assert(m.spec_entries().take(upto as int)[i as int].0@ == k@);
            return true;
        }
        i += 1;
    }
    assert forall|j: int| 0 <= j < upto implies (#[trigger] m.spec_entries().take(
        upto as int,
    )[j]).0@ != k@ by {
        assert(m.spec_entries().take(upto as int)[j] == m.spec_entries()[j]);
    }
    false
}

fn map_has_key<V>(m: &OrderedMap<V>, k: &str) -> (r: bool)
    ensures
        r == key_in(m.spec_entries(), k@),
{
    let n = m.len();
    let r = entries_have_key(m, n, k);
    assert(m.spec_entries().take(n as int) =~= m.spec_entries());
    r
}

fn ambiguous(id: &str, side: &str) -> (r: ConfigError)
    ensures
        r matches ConfigError::Invalid(m) && m@ == "middleware "@ + id@ + " has ambiguous "@ + side@
            + " header mutations"@,
{
    let what = join3(" has ambiguous ", side, " header mutations");
    ConfigError::Invalid(join3("middleware ", id, what.as_str()))
}

fn all_values_valid(id: &str, side: &str, values: &Vec<String>) -> (r: Result<(), ConfigError>)
    ensures
        r is Ok <==> forall|k: int| 0 <= k < values@.len() ==> header_value_valid(
            (#[trigger] values@[k])@,
        ),
        match values_error(id@, side@, values@, 0) {
            Some(m) => r matches Err(ConfigError::Invalid(e)) && e@ == m,
            None => r is Ok,
        },
{
    let mut k: usize = 0;
    while k < values.len()
        invariant
            k <= values@.len(),
            forall|m: int| 0 <= m < k ==> header_value_valid((#[trigger] values@[m])@),
            values_error(id@, side@, values@, 0) == values_error(id@, side@, values@, k as int),
        decreases values@.len() - k,
    {
        match validate_header_value(id, side, values[k].as_str()) {
            Ok(()) => {},
            Err(e) => {
                return Err(e);
            },
        }
        k += 1;
    }
    Ok(())
}

/// Validates one side's set, add and remove header mutations.
#[verifier::loop_isolation(false)]
pub fn validate_header_mutations(
    id: &str,
    side: &str,
    set: &OrderedMap<String>,
    add: &OrderedMap<Vec<String>>,
    remove: &Vec<String>,
    request: bool,
) -> (r: Result<(), ConfigError>)
    ensures
        r is Ok <==> mutations_ok(set.spec_entries(), add.spec_entries(), remove@, request),
        match mutations_error(
            id@,
            side@,
            set.spec_entries(),
            add.spec_entries(),
            remove@,
            request,
        ) {
            Some(m) => r matches Err(ConfigError::Invalid(e)) && e@ == m,
            None => r is Ok,
        },
{
    let ghost se = set.spec_entries();
    let ghost ae = add.spec_entries();
    let mut i: usize = 0;
    while i < set.len()
        invariant
            se == set.spec_entries(),
            i <= se.len(),
            forall|j: int|
                0 <= j < i ==> mutable_header_ok((#[trigger] se[j]).0@, request)
                    && header_value_valid(se[j].1@),
            set_error(id@, side@, se, request, 0) == set_error(id@, side@, se, request, i as int),
        decreases se.len() - i,
    {
        let (name, value) = set.entry(i);
        match validate_mutable_header(id, side, name.as_str(), request) {
            Ok(()) => {},
            Err(e) => {
                return Err(e);
            },
        }
        match validate_header_value(id, side, value.as_str()) {
            Ok(()) => {},
            Err(e) => {
                return Err(e);
            },
        }
        i += 1;
    }
    let mut i: usize = 0;
    while i < add.len()
        invariant
            se == set.spec_entries(),
            ae == add.spec_entries(),
            i <= ae.len(),
            forall|j: int|
                0 <= j < i ==> {
                    &&& mutable_header_ok((#[trigger] ae[j]).0@, request)
                    &&& 1 <= ae[j].1@.len() <= 8
                    &&& !key_in(se, ae[j].0@)
                    &&& !key_in(ae.take(j), ae[j].0@)
                    &&& forall|k: int|
                        0 <= k < ae[j].1@.len() ==> header_value_valid(ae[j].1@[k]@)
                },
            add_error(id@, side@, se, ae, request, 0) == add_error(
                id@,
                side@,
                se,
                ae,
                request,
                i as int,
            ),
        decreases ae.len() - i,
    {
        let (name, values) = add.entry(i);
        match validate_mutable_header(id, side, name.as_str(), request) {
            Ok(()) => {},
            Err(e) => {
                return Err(e);
            },
        }
        if values.len() == 0 || values.len() > 8 || map_has_key(set, name.as_str())
            || entries_have_key(add, i, name.as_str()) {
            return Err(ambiguous(id, side));
        }
        match all_values_valid(id, side, values) {
            Ok(()) => {},
            Err(e) => {
                return Err(e);
            },
        }
        i += 1;
    }
    let mut i: usize = 0;
    while i < remove.len()
        invariant
            se == set.spec_entries(),
            ae == add.spec_entries(),
            i <= remove@.len(),
            forall|j: int|
                0 <= j < i ==> {
                    &&& mutable_header_ok((#[trigger] remove@[j])@, request)
                    &&& !contains_string(remove@.take(j), remove@[j]@)
                    &&& !key_in(se, remove@[j]@)
                    &&& !key_in(ae, remove@[j]@)
                },
            remove_error(id@, side@, se, ae, remove@, request, 0) == remove_error(
                id@,
                side@,
                se,
                ae,
                remove@,
                request,
                i as int,
            ),
        decreases remove@.len() - i,
    {
        let name = remove[i].as_str();
        match validate_mutable_header(id, side, name, request) {
            Ok(()) => {},
            Err(e) => {
                return Err(e);
            },
        }
        let mut dup = false;
        let mut k: usize = 0;
        while k < i
            invariant
                i < remove@.len(),
                k <= i,
                name@ == remove@[i as int]@,
                dup == exists|m: int| 0 <= m < k && (#[trigger] remove@[m])@ == name@,
            decreases i - k,
        {
            if str_eq(remove[k].as_str(), name) {
                dup = true;
            }
            k += 1;
        }
        proof {
            if dup {
                let m = choose|m: int| 0 <= m < i && (#[trigger] remove@[m])@ == name@;
                assert(remove@.take(i as int)[m] == remove@[m]);
            }
            if contains_string(remove@.take(i as int), remove@[i as int]@) {
                let m = choose|m: int|
                    0 <= m < i && (#[trigger] remove@.take(i as int)[m])@ == remove@[i as int]@;
                assert(remove@.take(i as int)[m] == remove@[m]);
            }
        }
        if dup || map_has_key(set, name) || map_has_key(add, name) {
            return Err(ambiguous(id, side));
        }
        i += 1;
    }
    Ok(())
}

/// Header names that ForwardAuth may never copy.
pub open spec fn forward_forbidden_spec(n: Seq<char>, request: bool) -> bool {
    ||| n == "connection"@ || n == "content-encoding"@ || n == "content-length"@
    ||| n == "forwarded"@ || n == "host"@ || n == "keep-alive"@ || n == "proxy-authenticate"@
    ||| n == "proxy-authorization"@ || n == "proxy-connection"@ || n == "set-cookie"@
    ||| n == "te"@ || n == "trailer"@ || n == "transfer-encoding"@ || n == "upgrade"@
    ||| n == "x-aegisproxy-user"@ || n == "x-forwarded-for"@ || n == "x-forwarded-host"@
    ||| n == "x-forwarded-method"@ || n == "x-forwarded-port"@ || n == "x-forwarded-proto"@
    ||| n == "x-forwarded-uri"@ || n == "x-original-uri"@ || n == "x-real-ip"@
    ||| n == "x-request-id"@
    ||| request && starts_with(utf8(n), authentik_prefix())
    ||| !request && (n == "cookie"@ || n == "www-authenticate"@)
}

pub open spec fn authentik_prefix() -> Seq<u8> {
    seq![0x78u8, 0x2du8, 0x61u8, 0x75u8, 0x74u8, 0x68u8, 0x65u8, 0x6eu8, 0x74u8, 0x69u8, 0x6bu8, 0x2du8]
}

fn forward_forbidden(name: &str, request: bool) -> (r: bool)
    ensures
        r == forward_forbidden_spec(name@, request),
{
    let prefix: [u8; 12] = [0x78, 0x2d, 0x61, 0x75, 0x74, 0x68, 0x65, 0x6e, 0x74, 0x69, 0x6b, 0x2d];
    assert(prefix@ =~= authentik_prefix());
    str_eq(name, "connection") || str_eq(name, "content-encoding") || str_eq(
        name,
        "content-length",
    ) || str_eq(name, "forwarded") || str_eq(name, "host") || str_eq(name, "keep-alive") || str_eq(
        name,
        "proxy-authenticate",
    ) || str_eq(name, "proxy-authorization") || str_eq(name, "proxy-connection") || str_eq(
        name,
        "set-cookie",
    ) || str_eq(name, "te") || str_eq(name, "trailer") || str_eq(name, "transfer-encoding")
        || str_eq(name, "upgrade") || str_eq(name, "x-aegisproxy-user") || str_eq(
        name,
        "x-forwarded-for",
    ) || str_eq(name, "x-forwarded-host") || str_eq(name, "x-forwarded-method") || str_eq(
        name,
        "x-forwarded-port",
    ) || str_eq(name, "x-forwarded-proto") || str_eq(name, "x-forwarded-uri") || str_eq(
        name,
        "x-original-uri",
    ) || str_eq(name, "x-real-ip") || str_eq(name, "x-request-id") || (request
        && slice_starts_with(name.as_bytes(), prefix.as_slice())) || (!request && (str_eq(
        name,
        "cookie",
    ) || str_eq(name, "www-authenticate")))
}

/// A ForwardAuth header: canonical, at most 128 bytes, not protected.
pub open spec fn forward_header_ok(v: Seq<char>, request: bool) -> bool {
    utf8(v).len() <= 128 && canonical_header_name(utf8(v)) && !forward_forbidden_spec(
        v,
        request,
    )
}

/// The message of the rule that ForwardAuth header `v` of list `field` breaks.
pub open spec fn forward_header_error(id: Seq<char>, field: Seq<char>, v: Seq<char>, request: bool) -> Option<
    Seq<char>,
> {
    if !(1 <= utf8(v).len() <= 65535 && forall|i: int|
        0 <= i < utf8(v).len() ==> tchar(#[trigger] utf8(v)[i])) {
        Some("middleware "@ + id + (" has an invalid ForwardAuth "@ + field + " header"@))
    } else if !forward_header_ok(v, request) {
        Some("middleware "@ + id + (" cannot use protected ForwardAuth "@ + field + " header "@ + v))
    } else {
        None
    }
}

/// The first error of a ForwardAuth header list from position `j` on.
pub open spec fn forward_headers_error(
    id: Seq<char>,
    field: Seq<char>,
    values: Seq<String>,
    request: bool,
    j: int,
) -> Option<Seq<char>>
    decreases values.len() - j,
{
    if 0 <= j < values.len() {
        if forward_header_error(id, field, values[j]@, request) is Some {
            forward_header_error(id, field, values[j]@, request)
        } else if exists|a: int| 0 <= a < j && (#[trigger] values[a])@ == values[j]@ {
            Some("middleware "@ + id + (" has duplicate ForwardAuth "@ + field + " headers"@))
        } else {
            forward_headers_error(id, field, values, request, j + 1)
        }
    } else {
        None
    }
}

/// The first error of the ForwardAuth redirect hosts from position `j` on.
pub open spec fn redirect_hosts_error(id: Seq<char>, hosts: Seq<String>, j: int) -> Option<Seq<char>>
    decreases hosts.len() - j,
{
    if 0 <= j < hosts.len() {
        let h = hosts[j]@;
        if starts_with(utf8(h), seq![0x2au8, 0x2eu8]) || has_upper(utf8(h)) || exists|a: int|
            0 <= a < j && (#[trigger] hosts[a])@ == h {
            Some(mw_message(id, " has an unsafe or duplicate ForwardAuth redirect host"@))
        } else if !cert_host_ok(utf8(h)) {
            Some(cert_host_message(h))
        } else {
            redirect_hosts_error(id, hosts, j + 1)
        }
    } else {
        None
    }
}

/// The message of the first ForwardAuth rule that is broken.
pub open spec fn forward_auth_error(
    id: Seq<char>,
    upstream_group: Seq<char>,
    path: Seq<char>,
    request_headers: Seq<String>,
    response_headers: Seq<String>,
    principal: Seq<char>,
    redirect_hosts: Seq<String>,
    timeout_secs: u64,
) -> Option<Seq<char>> {
    if !id_ok(utf8(upstream_group)) {
        Some(id_message(upstream_group))
    } else if !canonical_path_ok(utf8(path), false) {
        Some(mw_message(id, " has a non-canonical rewrite path"@))
    } else if !(request_headers.len() <= 32 && 1 <= response_headers.len() <= 32
        && redirect_hosts.len() <= 16 && 1 <= timeout_secs <= 10) {
        Some(mw_message(id, " ForwardAuth policy exceeds safe bounds"@))
    } else if forward_headers_error(id, "request"@, request_headers, true, 0) is Some {
        forward_headers_error(id, "request"@, request_headers, true, 0)
    } else if forward_headers_error(id, "response"@, response_headers, false, 0) is Some {
        forward_headers_error(id, "response"@, response_headers, false, 0)
    } else if forward_header_error(id, "principal"@, principal, false) is Some {
        forward_header_error(id, "principal"@, principal, false)
    } else if !(starts_with(utf8(principal), seq![0x78u8, 0x2du8]) && contains_string(
        response_headers,
        principal,
    )) {
        Some(mw_message(id, " ForwardAuth principal_header must be response-allowlisted"@))
    } else {
        redirect_hosts_error(id, redirect_hosts, 0)
    }
}

/// Validates one ForwardAuth header name and gives it back.
pub fn validate_forward_auth_header<'a>(
    id: &str,
    field: &str,
    value: &'a str,
    request: bool,
) -> (r: Result<&'a str, ConfigError>)
    ensures
        r is Ok <==> forward_header_ok(value@, request),
        r matches Ok(v) ==> v@ == value@,
        match forward_header_error(id@, field@, value@, request) {
            Some(m) => r matches Err(ConfigError::Invalid(e)) && e@ == m,
            None => r is Ok,
        },
{
    match parse_header_name(value) {
        None => {
            let what = join3(" has an invalid ForwardAuth ", field, " header");
            Err(ConfigError::Invalid(join3("middleware ", id, what.as_str())))
        },
        Some(name) => {
            if value.as_bytes().len() > 128 || !str_eq(name.as_str(), value) || forward_forbidden(
                name.as_str(),
                request,
            ) {
                let what = join4(" cannot use protected ForwardAuth ", field, " header ", value);
                Err(ConfigError::Invalid(join3("middleware ", id, what.as_str())))
            } else {
                Ok(value)
            }
        },
    }
}

/// Validates a ForwardAuth header allowlist: each valid, none repeated.
#[verifier::loop_isolation(false)]
pub fn validate_forward_auth_headers(
    id: &str,
    field: &str,
    values: &Vec<String>,
    request: bool,
) -> (r: Result<(), ConfigError>)
    ensures
        r is Ok <==> (forall|i: int|
            0 <= i < values@.len() ==> forward_header_ok((#[trigger] values@[i])@, request))
            && distinct_strings(values@),
        match forward_headers_error(id@, field@, values@, request, 0) {
            Some(m) => r matches Err(ConfigError::Invalid(e)) && e@ == m,
            None => r is Ok,
        },
{
    let mut j: usize = 0;
    while j < values.len()
        invariant
            j <= values@.len(),
            forall|i: int| 0 <= i < j ==> forward_header_ok((#[trigger] values@[i])@, request),
            forall|a: int, b: int|
                0 <= a < b < j ==> (#[trigger] values@[a])@ != (#[trigger] values@[b])@,
            forward_headers_error(id@, field@, values@, request, 0) == forward_headers_error(
                id@,
                field@,
                values@,
                request,
                j as int,
            ),
        decreases values@.len() - j,
    {
        match validate_forward_auth_header(id, field, values[j].as_str(), request) {
            Ok(_) => {},
            Err(e) => {
                return Err(e);
            },
        }
        let mut i: usize = 0;
        while i < j
            invariant
                j < values@.len(),
                i <= j,
                forall|a: int| 0 <= a < i ==> (#[trigger] values@[a])@ != values@[j as int]@,
            decreases j - i,
        {
            if str_eq(values[i].as_str(), values[j].as_str()) {
                let what = join3(" has duplicate ForwardAuth ", field, " headers");
                return Err(ConfigError::Invalid(join3("middleware ", id, what.as_str())));
            }
            i += 1;
        }
        j += 1;
    }
    Ok(())
}


/// Whether position `s` starts a `;`-separated segment of `c`.
pub open spec fn seg_start(c: Seq<char>, s: int) -> bool {
    0 <= s <= c.len() && (s == 0 || c[s - 1] == ';')
}

/// The trimmed directive whose segment starts at `s`.
pub open spec fn directive(c: Seq<char>, s: int) -> Seq<char> {
    trimmed(c, s, find_char(c, ';', s))
}

pub open spec fn max_age_lit() -> Seq<char> {
    seq!['m', 'a', 'x', '-', 'a', 'g', 'e', '=']
}

pub open spec fn include_subdomains_lit() -> Seq<char> {
    seq!['i', 'n', 'c', 'l', 'u', 'd', 'e', 's', 'u', 'b', 'd', 'o', 'm', 'a', 'i', 'n', 's']
}

pub open spec fn preload_lit() -> Seq<char> {
    seq!['p', 'r', 'e', 'l', 'o', 'a', 'd']
}

pub open spec fn is_max_age(d: Seq<char>) -> bool {
    ci_starts_with(d, max_age_lit())
}

pub open spec fn is_persistence_flag(d: Seq<char>) -> bool {
    ci_eq(d, include_subdomains_lit()) || ci_eq(d, preload_lit())
}

pub open spec fn is_digit_char(c: char) -> bool {
    '0' <= c && c <= '9'
}

/// Decimal value of a digit string.
pub open spec fn digits_value(d: Seq<char>) -> int
    decreases d.len(),
{
    if d.len() == 0 {
        0
    } else {
        10 * digits_value(d.drop_last()) + (d.last() as int - '0' as int)
    }
}

/// `t` without one leading `+`.
pub open spec fn without_plus(t: Seq<char>) -> Seq<char> {
    if t.len() > 0 && t[0] == '+' {
        t.subrange(1, t.len() as int)
    } else {
        t
    }
}

/// `t` is what `str::parse::<u64>` accepts (an optional `+`, then at least
/// one digit) and its value is at most `bound`.
pub open spec fn unsigned_text_at_most(t: Seq<char>, bound: int) -> bool {
    let d = without_plus(t);
    &&& d.len() >= 1
    &&& forall|k: int| 0 <= k < d.len() ==> is_digit_char(#[trigger] d[k])
    &&& digits_value(d) <= bound
}

/// HSTS: every directive is `max-age=N` or a persistence flag; exactly one
/// `max-age`, with `N` in 0..=63072000; a persistence flag needs the
/// acknowledgement.
pub open spec fn hsts_ok(c: Seq<char>, acknowledged: bool) -> bool {
    &&& forall|s: int|
        #[trigger] seg_start(c, s) ==> is_max_age(directive(c, s)) || is_persistence_flag(
            directive(c, s),
        )
    &&& exists|s: int|
        #[trigger] seg_start(c, s) && is_max_age(directive(c, s)) && unsigned_text_at_most(
            directive(c, s).subrange(8, directive(c, s).len() as int),
            63_072_000,
        ) && forall|t: int| #[trigger] seg_start(c, t) && t != s ==> !is_max_age(directive(c, t))
    &&& (exists|s: int| #[trigger] seg_start(c, s) && is_persistence_flag(directive(c, s)))
        ==> acknowledged
}

proof fn lemma_digits_value_grows(d: Seq<char>)
    requires
        d.len() >= 1,
        forall|k: int| 0 <= k < d.len() ==> is_digit_char(#[trigger] d[k]),
    ensures
        digits_value(d) >= digits_value(d.drop_last()),
        digits_value(d.drop_last()) >= 0,
    decreases d.len(),
{
    if d.len() > 1 {
        lemma_digits_value_grows(d.drop_last());
    }
}

/// Whether `c[a..b]` is an unsigned decimal of value at most `bound`.
fn unsigned_at_most(c: &Vec<char>, a: usize, b: usize, bound: u64) -> (r: bool)
    requires
        a <= b <= c@.len(),
        bound < 0x1_0000_0000,
    ensures
        r == unsigned_text_at_most(c@.subrange(a as int, b as int), bound as int),
{
    let ghost t = c@.subrange(a as int, b as int);
    let mut start = a;
    if a < b && c[a] == '+' {
        start = a + 1;
    }
    let ghost d = c@.subrange(start as int, b as int);
    assert(d =~= without_plus(t));
    let ghost goal = unsigned_text_at_most(t, bound as int);
    assert(goal == (d.len() >= 1 && (forall|k: int|
        0 <= k < d.len() ==> is_digit_char(#[trigger] d[k])) && digits_value(d) <= bound));
    if start >= b {
        return false;
    }
    let mut value: u64 = 0;
    let mut i = start;
    while i < b
        invariant
            a <= start < b <= c@.len(),
            start <= i <= b,
            t == c@.subrange(a as int, b as int),
            d == c@.subrange(start as int, b as int),
            goal == unsigned_text_at_most(t, bound as int),
            goal == (d.len() >= 1 && (forall|k: int|
                0 <= k < d.len() ==> is_digit_char(#[trigger] d[k])) && digits_value(d)
                <= bound),
            bound < 0x1_0000_0000,
            value <= bound,
            forall|k: int| start <= k < i ==> is_digit_char(#[trigger] c@[k]),
            value == digits_value(c@.subrange(start as int, i as int)),
        decreases b - i,
    {
        let ch = c[i];
        if !('0' <= ch && ch <= '9') {
            assert(d[i - start] == ch);
            return false;
        }
        let digit = (ch as u32 - '0' as u32) as u64;
        let ghost prefix = c@.subrange(start as int, i + 1);
        assert(prefix.drop_last() =~= c@.subrange(start as int, i as int));
        assert(digits_value(prefix) == 10 * value + digit);
        let next = 10 * value + digit;
        if next > bound {
            let mut j = i + 1;
            while j < b
                invariant
                    start < i + 1 <= j <= b <= c@.len(),
                    t == c@.subrange(a as int, b as int),
                    d == c@.subrange(start as int, b as int),
                    goal == unsigned_text_at_most(t, bound as int),
                    goal == (d.len() >= 1 && (forall|k: int|
                        0 <= k < d.len() ==> is_digit_char(#[trigger] d[k])) && digits_value(d)
                        <= bound),
                    digits_value(c@.subrange(start as int, j as int)) > bound,
                    forall|k: int| start <= k < j ==> is_digit_char(#[trigger] c@[k]),
                decreases b - j,
            {
                if !('0' <= c[j] && c[j] <= '9') {
                    assert(d[j - start] == c@[j as int]);
                    return false;
                }
                let ghost q = c@.subrange(start as int, j + 1);
                assert(q.drop_last() =~= c@.subrange(start as int, j as int));
                proof {
                    assert forall|k: int| 0 <= k < q.len() implies is_digit_char(#[trigger] q[k]) by {
                        assert(q[k] == c@[start + k]);
                    }
                    lemma_digits_value_grows(q);
                }
                j += 1;
            }
            assert(c@.subrange(start as int, b as int) =~= d);
            return false;
        }
        value = next;
        i += 1;
    }
    assert(c@.subrange(start as int, b as int) =~= d);
    assert forall|k: int| 0 <= k < d.len() implies is_digit_char(#[trigger] d[k]) by {
        assert(d[k] == c@[start + k]);
    }
    true
}


/// The position of the `max-age` segment after the directive at `start`.
pub open spec fn next_max_at(c: Seq<char>, start: int, max_at: Option<int>) -> Option<int> {
    if is_max_age(directive(c, start)) {
        Some(start)
    } else {
        max_at
    }
}

/// The message of the first HSTS rule that value `c` breaks, scanning the
/// segments from `start` on; `max_at` is where the `max-age` directive seen
/// so far starts, and `persistent` whether a persistence flag was seen.
pub open spec fn hsts_scan(
    id: Seq<char>,
    c: Seq<char>,
    acknowledged: bool,
    start: int,
    max_at: Option<int>,
    persistent: bool,
) -> Option<Seq<char>>
    decreases c.len() - start,
{
    if !(0 <= start <= c.len()) {
        None
    } else {
        let end = find_char(c, ';', start);
        let d = directive(c, start);
        if is_max_age(d) && max_at is Some {
            Some(mw_message(id, " repeats HSTS max-age"@))
        } else if !is_max_age(d) && !is_persistence_flag(d) {
            Some(mw_message(id, " contains an unsupported HSTS directive"@))
        } else {
            let m2 = next_max_at(c, start, max_at);
            let p2 = persistent || is_persistence_flag(d);
            if end >= c.len() {
                match m2 {
                    None => Some(mw_message(id, " HSTS requires max-age within 0..=63072000"@)),
                    Some(s0) => {
                        let d0 = directive(c, s0);
                        if !unsigned_text_at_most(d0.subrange(8, d0.len() as int), 63_072_000) {
                            Some(mw_message(id, " HSTS requires max-age within 0..=63072000"@))
                        } else if p2 && !acknowledged {
                            Some(mw_message(id, " must acknowledge HSTS subdomain/preload risk"@))
                        } else {
                            None
                        }
                    },
                }
            } else {
                proof {
                    lemma_find_char(c, ';', start);
                }
                hsts_scan(id, c, acknowledged, end + 1, m2, p2)
            }
        }
    }
}

/// The message of the first security-header rule that is broken.
pub open spec fn security_headers_error(
    id: Seq<char>,
    hsts: Option<String>,
    csp: Option<String>,
    acknowledged: bool,
) -> Option<Seq<char>> {
    if hsts is None && csp is None {
        Some(mw_message(id, " has no security headers"@))
    } else if hsts is Some && !header_value_valid(hsts->0@) {
        Some(header_value_message(id, "hsts"@))
    } else if hsts is Some && hsts_scan(id, hsts->0@, acknowledged, 0, None, false) is Some {
        hsts_scan(id, hsts->0@, acknowledged, 0, None, false)
    } else if csp is Some && !header_value_valid(csp->0@) {
        Some(header_value_message(id, "content_security_policy"@))
    } else {
        None
    }
}

fn hsts_error(id: &str, what: &str) -> (r: ConfigError)
    ensures
        r matches ConfigError::Invalid(m) && m@ == "middleware "@ + id@ + what@,
{
    ConfigError::Invalid(join3("middleware ", id, what))
}

/// Validates the directives of an HSTS value.
fn validate_hsts_directives(id: &str, value: &str, acknowledged: bool) -> (r: Result<
    (),
    ConfigError,
>)
    ensures
        r is Ok <==> hsts_ok(value@, acknowledged),
        match hsts_scan(id@, value@, acknowledged, 0, None, false) {
            Some(m) => r matches Err(ConfigError::Invalid(e)) && e@ == m,
            None => r is Ok,
        },
{
    let c = str_chars(value);
    let n = c.len();
    let lit_max: [char; 8] = ['m', 'a', 'x', '-', 'a', 'g', 'e', '='];
    let lit_inc: [char; 17] = [
        'i',
        'n',
        'c',
        'l',
        'u',
        'd',
        'e',
        's',
        'u',
        'b',
        'd',
        'o',
        'm',
        'a',
        'i',
        'n',
        's',
    ];
    let lit_pre: [char; 7] = ['p', 'r', 'e', 'l', 'o', 'a', 'd'];
    assert(lit_max@ =~= max_age_lit());
    assert(lit_inc@ =~= include_subdomains_lit());
    assert(lit_pre@ =~= preload_lit());
    let ghost cs = c@;
    let mut start: usize = 0;
    let mut max_at: Option<(usize, usize, usize)> = None;
    let mut persistent = false;
    loop
        invariant
            cs == c@,
            cs == value@,
            n == cs.len(),
            lit_max@ == max_age_lit(),
            lit_inc@ == include_subdomains_lit(),
            lit_pre@ == preload_lit(),
            start <= n,
            seg_start(cs, start as int),
            forall|t: int|
                #[trigger] seg_start(cs, t) && t < start ==> is_max_age(directive(cs, t))
                    || is_persistence_flag(directive(cs, t)),
            match max_at {
                Some((s0, a0, b0)) => {
                    &&& s0 < start
                    &&& seg_start(cs, s0 as int)
                    &&& is_max_age(directive(cs, s0 as int))
                    &&& a0 <= b0 <= n
                    &&& cs.subrange(a0 as int, b0 as int) == directive(cs, s0 as int)
                    &&& forall|t: int|
                        #[trigger] seg_start(cs, t) && t < start && t != s0 ==> !is_max_age(
                            directive(cs, t),
                        )
                },
                None => forall|t: int|
                    #[trigger] seg_start(cs, t) && t < start ==> !is_max_age(directive(cs, t)),
            },
            persistent == exists|t: int|
                #[trigger] seg_start(cs, t) && t < start && is_persistence_flag(directive(cs, t)),
            hsts_scan(id@, cs, acknowledged, 0, None, false) == hsts_scan(
                id@,
                cs,
                acknowledged,
                start as int,
                match max_at {
                    Some(m) => Some(m.0 as int),
                    None => None,
                },
                persistent,
            ),
        decreases n - start,
    {
        let end = chars_find(&c, ';', start);
        proof {
            lemma_find_char(cs, ';', start as int);
        }
        let (a, b) = chars_trim(&c, start, end);
        assert(cs.subrange(a as int, b as int) == directive(cs, start as int));
        let ghost prev_persistent = persistent;
        if chars_ci_starts_with(&c, a, b, lit_max.as_slice()) {
            if max_at.is_some() {
                proof {
                    let s0 = match max_at {
                        Some(m) => m.0 as int,
                        None => 0,
                    };
                    assert(seg_start(cs, start as int));
                    assert forall|s: int|
                        #[trigger] seg_start(cs, s) && is_max_age(directive(cs, s)) implies exists|
                        t: int,
                    | #[trigger] seg_start(cs, t) && t != s && is_max_age(directive(cs, t)) by {
                        if s == s0 {
                            assert(seg_start(cs, start as int) && start != s);
                        } else {
                            assert(seg_start(cs, s0) && s0 != s);
                        }
                    }
                }
                return Err(hsts_error(id, " repeats HSTS max-age"));
            }
            max_at = Some((start, a, b));
        } else if chars_ci_eq(&c, a, b, lit_inc.as_slice()) || chars_ci_eq(
            &c,
            a,
            b,
            lit_pre.as_slice(),
        ) {
            persistent = true;
        } else {
            assert(seg_start(cs, start as int));
            return Err(hsts_error(id, " contains an unsupported HSTS directive"));
        }
        assert forall|t: int| start < t <= end implies !seg_start(cs, t) by {
            assert(cs[t - 1] != ';');
        }
        if end == n {
            assert forall|t: int| #[trigger] seg_start(cs, t) implies t <= start by {
                if t > start {
                    assert(!seg_start(cs, t));
                }
            }
            match max_at {
                None => {
                    return Err(
                        hsts_error(id, " HSTS requires max-age within 0..=63072000"),
                    );
                },
                Some((s0, a0, b0)) => {
                    let ghost d = directive(cs, s0 as int);
                    assert(cs.subrange(a0 + 8, b0 as int) =~= d.subrange(8, d.len() as int));
                    if !unsigned_at_most(&c, a0 + 8, b0, 63_072_000) {
                        return Err(
                            hsts_error(id, " HSTS requires max-age within 0..=63072000"),
                        );
                    }
                    assert(seg_start(cs, s0 as int));
                },
            }
            if persistent && !acknowledged {
                return Err(
                    hsts_error(id, " must acknowledge HSTS subdomain/preload risk"),
                );
            }
            return Ok(());
        }
        assert(cs[end as int] == ';');
        proof {
            let d = directive(cs, start as int);
            if is_max_age(d) {
                assert(lower_eq(d[0], 'm'));
                assert(!is_persistence_flag(d)) by {
                    if ci_eq(d, include_subdomains_lit()) {
                        assert(lower_eq(d[0], 'i'));
                    }
                    if ci_eq(d, preload_lit()) {
                        assert(lower_eq(d[0], 'p'));
                    }
                }
            }
            if persistent {
                if prev_persistent {
                    let w = choose|t: int|
                        #[trigger] seg_start(cs, t) && t < start && is_persistence_flag(
                            directive(cs, t),
                        );
                    assert(seg_start(cs, w) && w < end + 1);
                } else {
                    assert(seg_start(cs, start as int) && start < end + 1);
                }
            } else {
                assert forall|t: int|
                    #[trigger] seg_start(cs, t) && t < end + 1 implies !is_persistence_flag(
                    directive(cs, t),
                ) by {
                    if t > start {
                        assert(!seg_start(cs, t));
                    }
                }
            }
        }
        start = end + 1;
        assert(seg_start(cs, start as int));
    }
}


pub open spec fn security_headers_ok(
    hsts: Option<String>,
    csp: Option<String>,
    acknowledged: bool,
) -> bool {
    &&& (hsts is Some || csp is Some)
    &&& match hsts {
        Some(v) => header_value_valid(v@) && hsts_ok(v@, acknowledged),
        None => true,
    }
    &&& match csp {
        Some(v) => header_value_valid(v@),
        None => true,
    }
}

pub open spec fn rate_limit_ok(rps: u64, burst: u64, max_keys: usize, idle_secs: u64) -> bool {
    &&& 1 <= rps <= 1_000_000
    &&& 1 <= burst <= 1_000_000
    &&& 1 <= max_keys <= 100_000
    &&& 1 <= idle_secs <= 86_400
}

pub open spec fn in_flight_ok(max_requests: usize, max_per_client: usize, status: u16) -> bool {
    &&& 1 <= max_requests <= 100_000
    &&& 1 <= max_per_client <= max_requests
    &&& (status == 429 || status == 503)
}

/// At most 256 CIDRs on each side, not both empty, none listed twice.
pub open spec fn ip_policy_ok(allow: Seq<Cidr>, deny: Seq<Cidr>) -> bool {
    &&& allow.len() <= 256
    &&& deny.len() <= 256
    &&& !(allow.len() == 0 && deny.len() == 0)
    &&& no_duplicates(allow + deny)
}

/// A canonical web origin: an `http(s)` URL with a host, no credentials,
/// path `/`, no query or fragment, whose ASCII origin is the text itself.
pub open spec fn cors_origin_ok(o: Seq<char>) -> bool {
    &&& utf8(o).len() <= 1024
    &&& url_from_str(o) is Some
    &&& {
        let u = url_from_str(o)->0;
        &&& (u.scheme == "http"@ || u.scheme == "https"@)
        &&& u.host is Some
        &&& u.username.len() == 0
        &&& !u.has_password
        &&& u.path == "/"@
        &&& u.query is None
        &&& u.fragment is None
        &&& u.origin == o
    }
}

pub open spec fn cors_method_ok(m: Seq<char>) -> bool {
    utf8(m).len() <= 32 && token_ok(utf8(m)) && m != "CONNECT"@
}

pub open spec fn cors_header_ok(h: Seq<char>) -> bool {
    utf8(h).len() <= 64 && canonical_header_name(utf8(h))
}

pub open spec fn cors_ok(
    origins: Seq<String>,
    methods: Seq<String>,
    headers: Seq<String>,
    allow_credentials: bool,
    max_age_secs: u64,
) -> bool {
    &&& 1 <= origins.len() <= 64
    &&& 1 <= methods.len() <= 32
    &&& headers.len() <= 64
    &&& max_age_secs <= 86_400
    &&& (contains_string(origins, "*"@) ==> origins.len() == 1 && !allow_credentials)
    &&& forall|i: int|
        0 <= i < origins.len() && (#[trigger] origins[i])@ != "*"@ ==> cors_origin_ok(
            origins[i]@,
        )
    &&& distinct_strings(origins)
    &&& forall|i: int| 0 <= i < methods.len() ==> cors_method_ok((#[trigger] methods[i])@)
    &&& distinct_strings(methods)
    &&& forall|i: int| 0 <= i < headers.len() ==> cors_header_ok((#[trigger] headers[i])@)
    &&& distinct_strings(headers)
}

pub open spec fn realm_byte(b: u8) -> bool {
    is_alnum(b) || b == 0x20 || b == 0x2d || b == 0x5f || b == 0x2e
}

pub open spec fn user_byte(b: u8) -> bool {
    is_graphic(b) && b != 0x3a && b != 0x22 && b != 0x5c
}

pub open spec fn basic_user_ok(name: Seq<char>, reference: Seq<char>) -> bool {
    &&& 1 <= utf8(name).len() <= 64
    &&& forall|k: int| 0 <= k < utf8(name).len() ==> user_byte(#[trigger] utf8(name)[k])
    &&& secret_ref_ok(utf8(reference))
}

pub open spec fn basic_auth_ok(
    realm: Seq<char>,
    users: Seq<(String, String)>,
    max_concurrent: usize,
    timeout_secs: u64,
) -> bool {
    &&& 1 <= utf8(realm).len() <= 64
    &&& forall|k: int| 0 <= k < utf8(realm).len() ==> realm_byte(#[trigger] utf8(realm)[k])
    &&& 1 <= users.len() <= 64
    &&& 1 <= max_concurrent <= 1_024
    &&& 1 <= timeout_secs <= 30
    &&& forall|i: int| 0 <= i < users.len() ==> basic_user_ok((#[trigger] users[i]).0@, users[i].1@)
}

pub open spec fn has_upper(b: Seq<u8>) -> bool {
    exists|i: int| 0 <= i < b.len() && is_upper(#[trigger] b[i])
}

pub open spec fn redirect_host_ok(h: Seq<char>) -> bool {
    !starts_with(utf8(h), seq![0x2au8, 0x2eu8]) && !has_upper(utf8(h)) && cert_host_ok(utf8(h))
}

pub open spec fn forward_auth_ok(
    upstream_group: Seq<char>,
    path: Seq<char>,
    request_headers: Seq<String>,
    response_headers: Seq<String>,
    principal: Seq<char>,
    redirect_hosts: Seq<String>,
    timeout_secs: u64,
) -> bool {
    &&& id_ok(utf8(upstream_group))
    &&& canonical_path_ok(utf8(path), false)
    &&& request_headers.len() <= 32
    &&& 1 <= response_headers.len() <= 32
    &&& redirect_hosts.len() <= 16
    &&& 1 <= timeout_secs <= 10
    &&& forall|i: int|
        0 <= i < request_headers.len() ==> forward_header_ok((#[trigger] request_headers[i])@, true)
    &&& distinct_strings(request_headers)
    &&& forall|i: int|
        0 <= i < response_headers.len() ==> forward_header_ok(
            (#[trigger] response_headers[i])@,
            false,
        )
    &&& distinct_strings(response_headers)
    &&& forward_header_ok(principal, false)
    &&& starts_with(utf8(principal), seq![0x78u8, 0x2du8])
    &&& contains_string(response_headers, principal)
    &&& forall|i: int| 0 <= i < redirect_hosts.len() ==> redirect_host_ok((#[trigger] redirect_hosts[i])@)
    &&& distinct_strings(redirect_hosts)
}

pub open spec fn rewrite_ok(from_prefix: Option<String>, to: Seq<char>) -> bool {
    &&& canonical_path_ok(utf8(to), from_prefix is Some)
    &&& match from_prefix {
        Some(f) => canonical_path_ok(utf8(f@), true) && f@ != to,
        None => true,
    }
}

/// Total number of values in the added-header lists.
pub open spec fn added_values(add: Seq<(String, Vec<String>)>) -> int
    decreases add.len(),
{
    if add.len() == 0 {
        0
    } else {
        added_values(add.drop_last()) + add.last().1@.len()
    }
}

pub open spec fn static_content_type_ok(t: Seq<char>) -> bool {
    t == "text/plain; charset=utf-8"@ || t == "text/html; charset=utf-8"@
}

pub open spec fn maintenance_ok(
    status: u16,
    body: Seq<char>,
    content_type: Seq<char>,
    retry_after_secs: Option<u64>,
) -> bool {
    &&& (status == 200 || status == 503)
    &&& 1 <= utf8(body).len() <= 64 * 1024
    &&& static_content_type_ok(content_type)
    &&& match retry_after_secs {
        Some(s) => 1 <= s <= 86_400 && status != 200,
        None => true,
    }
}

pub open spec fn custom_error_ok(statuses: Seq<u16>, body: Seq<char>, content_type: Seq<char>) -> bool {
    &&& 1 <= statuses.len() <= 16
    &&& no_duplicates(statuses)
    &&& forall|i: int| 0 <= i < statuses.len() ==> 500 <= #[trigger] statuses[i] <= 599
    &&& 1 <= utf8(body).len() <= 64 * 1024
    &&& static_content_type_ok(content_type)
}

/// An exact lowercase media type without parameters or whitespace.
pub open spec fn media_type_ok(v: Seq<char>) -> bool {
    &&& 1 <= utf8(v).len() <= 127
    &&& !has_upper(utf8(v))
    &&& !has_byte(utf8(v), 0x3b)
    &&& !(exists|k: int| 0 <= k < v.len() && is_ws_char(#[trigger] v[k]))
    &&& has_byte(utf8(v), 0x2f)
}

pub open spec fn compression_ok(
    encodings: Seq<CompressionEncoding>,
    content_types: Seq<String>,
    min_bytes: usize,
    max_concurrent: usize,
) -> bool {
    &&& 1 <= encodings.len() <= 2
    &&& no_duplicates(encodings)
    &&& 1 <= content_types.len() <= 32
    &&& 256 <= min_bytes <= 1_048_576
    &&& 1 <= max_concurrent <= 32
    &&& forall|i: int| 0 <= i < content_types.len() ==> media_type_ok((#[trigger] content_types[i])@)
    &&& distinct_strings(content_types)
}

pub open spec fn redirect_status_ok(status: u16) -> bool {
    status == 301 || status == 302 || status == 303 || status == 307 || status == 308
}

/// A fixed redirect target: an `http(s)` URL with a host and no credentials
/// or fragment, or a rooted relative target without scheme or authority; a
/// preserved query needs a target without one.
pub open spec fn redirect_location_ok(location: Seq<char>, preserve_query: bool) -> bool {
    match url_from_str(location) {
        Some(u) => {
            &&& (u.scheme == "http"@ || u.scheme == "https"@)
            &&& u.host is Some
            &&& u.username.len() == 0
            &&& !u.has_password
            &&& u.fragment is None
            &&& !(preserve_query && u.query is Some)
        },
        None => match uri_from_str(location) {
            Some(t) => {
                &&& starts_with(utf8(t.path), seq![0x2fu8])
                &&& !starts_with(utf8(t.path), seq![0x2fu8, 0x2fu8])
                &&& !t.has_scheme
                &&& !t.has_authority
                &&& !(preserve_query && t.has_query)
            },
            None => false,
        },
    }
}

/// Every rule of one middleware definition.
pub open spec fn middleware_ok(m: MiddlewareConfig) -> bool {
    match m {
        MiddlewareConfig::SecurityHeaders {
            hsts,
            content_security_policy,
            acknowledge_hsts_risk,
            ..
        } => security_headers_ok(hsts, content_security_policy, acknowledge_hsts_risk),
        MiddlewareConfig::RateLimit { requests_per_second, burst, max_keys, idle_secs, .. } =>
            rate_limit_ok(requests_per_second, burst, max_keys, idle_secs),
        MiddlewareConfig::InFlightLimit { max_requests, max_per_client, status } => in_flight_ok(
            max_requests,
            max_per_client,
            status,
        ),
        MiddlewareConfig::IpPolicy { allow, deny } => ip_policy_ok(allow@, deny@),
        MiddlewareConfig::Cors { origins, methods, headers, allow_credentials, max_age_secs } =>
            cors_ok(origins@, methods@, headers@, allow_credentials, max_age_secs),
        MiddlewareConfig::BasicAuth { realm, users, max_concurrent_verifications, timeout_secs } =>
            basic_auth_ok(
            realm@,
            users.spec_entries(),
            max_concurrent_verifications,
            timeout_secs,
        ),
        MiddlewareConfig::ForwardAuth {
            upstream_group,
            path,
            request_headers,
            response_headers,
            principal_header,
            redirect_hosts,
            timeout_secs,
        } => forward_auth_ok(
            upstream_group@,
            path@,
            request_headers@,
            response_headers@,
            principal_header@,
            redirect_hosts@,
            timeout_secs,
        ),
        MiddlewareConfig::Rewrite { from_prefix, to } => rewrite_ok(from_prefix, to@),
        MiddlewareConfig::HeaderMutation {
            request_set,
            request_add,
            request_remove,
            response_set,
            response_add,
            response_remove,
        } => {
            &&& mutations_ok(
                request_set.spec_entries(),
                request_add.spec_entries(),
                request_remove@,
                true,
            )
            &&& mutations_ok(
                response_set.spec_entries(),
                response_add.spec_entries(),
                response_remove@,
                false,
            )
            &&& 1 <= request_set.spec_entries().len() + added_values(request_add.spec_entries())
                + request_remove@.len() + response_set.spec_entries().len() + added_values(
                response_add.spec_entries(),
            ) + response_remove@.len() <= 64
        },
        MiddlewareConfig::Maintenance { status, body, content_type, retry_after_secs, .. } =>
            maintenance_ok(status, body@, content_type@, retry_after_secs),
        MiddlewareConfig::CustomError { statuses, body, content_type } => custom_error_ok(
            statuses@,
            body@,
            content_type@,
        ),
        MiddlewareConfig::Compression { encodings, content_types, min_bytes, max_concurrent, .. } =>
            compression_ok(encodings@, content_types@, min_bytes, max_concurrent),
        MiddlewareConfig::Redirect { location, status, preserve_query } => {
            &&& redirect_status_ok(status)
            &&& header_value_valid(location@)
            &&& redirect_location_ok(location@, preserve_query)
        },
    }
}


/// The message `middleware <id><what>`.
pub open spec fn mw_message(id: Seq<char>, what: Seq<char>) -> Seq<char> {
    "middleware "@ + id + what
}

/// The message that rejects the value of header field `field`.
pub open spec fn header_value_message(id: Seq<char>, field: Seq<char>) -> Seq<char> {
    "middleware "@ + id + " has an invalid "@ + (field + " header value"@)
}

/// The message of the first rule that middleware `m`, named `id`, breaks;
/// `None` when it is valid.
pub open spec fn middleware_error(id: Seq<char>, m: MiddlewareConfig) -> Option<Seq<char>> {
    match m {
        MiddlewareConfig::SecurityHeaders {
            hsts,
            content_security_policy,
            acknowledge_hsts_risk,
            ..
        } => security_headers_error(id, hsts, content_security_policy, acknowledge_hsts_risk),
        MiddlewareConfig::RateLimit { requests_per_second, burst, max_keys, idle_secs, .. } => {
            if !rate_limit_ok(requests_per_second, burst, max_keys, idle_secs) {
                Some(mw_message(id, " rate limit is outside safe bounds"@))
            } else {
                None
            }
        },
        MiddlewareConfig::InFlightLimit { max_requests, max_per_client, status } => {
            if !in_flight_ok(max_requests, max_per_client, status) {
                Some(mw_message(id, " in-flight limit is outside safe bounds"@))
            } else {
                None
            }
        },
        MiddlewareConfig::IpPolicy { allow, deny } => {
            if !(allow@.len() <= 256 && deny@.len() <= 256 && !(allow@.len() == 0
                && deny@.len() == 0)) {
                Some(mw_message(id, " IP policy is empty or exceeds CIDR bounds"@))
            } else if !no_duplicates(allow@ + deny@) {
                Some(mw_message(id, " IP policy contains duplicate CIDRs"@))
            } else {
                None
            }
        },
        MiddlewareConfig::BasicAuth { realm, users, max_concurrent_verifications, timeout_secs } => {
            let u = users.spec_entries();
            if !(1 <= utf8(realm@).len() <= 64 && (forall|k: int|
                0 <= k < utf8(realm@).len() ==> realm_byte(#[trigger] utf8(realm@)[k])) && 1
                <= u.len() <= 64 && 1 <= max_concurrent_verifications <= 1_024 && 1 <= timeout_secs
                <= 30) {
                Some(mw_message(id, " Basic authentication policy exceeds safe bounds"@))
            } else if !basic_auth_ok(realm@, u, max_concurrent_verifications, timeout_secs) {
                Some(mw_message(id, " has an invalid Basic authentication user"@))
            } else {
                None
            }
        },
        MiddlewareConfig::Rewrite { from_prefix, to } => rewrite_error(id, from_prefix, to@),
        MiddlewareConfig::HeaderMutation {
            request_set,
            request_add,
            request_remove,
            response_set,
            response_add,
            response_remove,
        } => header_mutation_error(
            id,
            request_set.spec_entries(),
            request_add.spec_entries(),
            request_remove@,
            response_set.spec_entries(),
            response_add.spec_entries(),
            response_remove@,
        ),
        MiddlewareConfig::Cors { origins, methods, headers, allow_credentials, max_age_secs } =>
            cors_error(id, origins@, methods@, headers@, allow_credentials, max_age_secs),
        MiddlewareConfig::ForwardAuth {
            upstream_group,
            path,
            request_headers,
            response_headers,
            principal_header,
            redirect_hosts,
            timeout_secs,
        } => forward_auth_error(
            id,
            upstream_group@,
            path@,
            request_headers@,
            response_headers@,
            principal_header@,
            redirect_hosts@,
            timeout_secs,
        ),
        MiddlewareConfig::Maintenance { status, body, content_type, retry_after_secs, .. } => {
            if !maintenance_ok(status, body@, content_type@, retry_after_secs) {
                Some(mw_message(id, " has an unsafe maintenance response"@))
            } else {
                None
            }
        },
        MiddlewareConfig::CustomError { statuses, body, content_type } => {
            if !custom_error_ok(statuses@, body@, content_type@) {
                Some(mw_message(id, " has an unsafe custom error response"@))
            } else {
                None
            }
        },
        MiddlewareConfig::Compression { encodings, content_types, min_bytes, max_concurrent, .. } => {
            if !compression_ok(encodings@, content_types@, min_bytes, max_concurrent) {
                Some(mw_message(id, " has an unsafe compression policy"@))
            } else {
                None
            }
        },
        MiddlewareConfig::Redirect { location, status, preserve_query } => redirect_error(
            id,
            location@,
            status,
            preserve_query,
        ),
    }
}

/// The message of the first redirect rule that is broken.
pub open spec fn redirect_error(id: Seq<char>, location: Seq<char>, status: u16, preserve_query: bool) -> Option<
    Seq<char>,
> {
    if !redirect_status_ok(status) {
        Some(mw_message(id, " has an invalid redirect status"@))
    } else if !header_value_valid(location) {
        Some(header_value_message(id, "location"@))
    } else {
        redirect_location_error(id, location, preserve_query)
    }
}

/// The message of the redirect target rule that `location` breaks.
pub open spec fn redirect_location_error(id: Seq<char>, location: Seq<char>, preserve_query: bool) -> Option<
    Seq<char>,
> {
    match url_from_str(location) {
        Some(u) => {
            if !((u.scheme == "http"@ || u.scheme == "https"@) && u.host is Some && u.username.len()
                == 0 && !u.has_password && u.fragment is None && !(preserve_query
                && u.query is Some)) {
                Some(mw_message(id, " has an unsafe absolute redirect"@))
            } else {
                None
            }
        },
        None => match uri_from_str(location) {
            None => Some(mw_message(id, " has an invalid relative redirect"@)),
            Some(t) => {
                if !(starts_with(utf8(t.path), seq![0x2fu8]) && !starts_with(
                    utf8(t.path),
                    seq![0x2fu8, 0x2fu8],
                ) && !t.has_scheme && !t.has_authority && !(preserve_query && t.has_query)) {
                    Some(mw_message(id, " has an unsafe relative redirect"@))
                } else {
                    None
                }
            },
        },
    }
}

/// The message of the first rewrite rule that is broken.
pub open spec fn rewrite_error(id: Seq<char>, from_prefix: Option<String>, to: Seq<char>) -> Option<
    Seq<char>,
> {
    if !canonical_path_ok(utf8(to), from_prefix is Some) {
        Some(mw_message(id, " has a non-canonical rewrite path"@))
    } else if from_prefix is Some && !canonical_path_ok(utf8(from_prefix->0@), true) {
        Some(mw_message(id, " has a non-canonical rewrite path"@))
    } else if from_prefix is Some && from_prefix->0@ == to {
        Some(mw_message(id, " rewrite does not change the path"@))
    } else {
        None
    }
}

fn mw_error(id: &str, what: &str) -> (r: ConfigError)
    ensures
        r matches ConfigError::Invalid(m) && m@ == "middleware "@ + id@ + what@,
{
    ConfigError::Invalid(join3("middleware ", id, what))
}

fn check_security_headers(
    id: &str,
    hsts: &Option<String>,
    csp: &Option<String>,
    acknowledged: bool,
) -> (r: Result<(), ConfigError>)
    ensures
        r is Ok <==> security_headers_ok(*hsts, *csp, acknowledged),
        match security_headers_error(id@, *hsts, *csp, acknowledged) {
            Some(m) => r matches Err(ConfigError::Invalid(e)) && e@ == m,
            None => r is Ok,
        },
{
    if hsts.is_none() && csp.is_none() {
        return Err(mw_error(id, " has no security headers"));
    }
    match hsts {
        Some(v) => {
            match validate_header_value(id, "hsts", v.as_str()) {
                Ok(()) => {},
                Err(e) => {
                    return Err(e);
                },
            }
            match validate_hsts_directives(id, v.as_str(), acknowledged) {
                Ok(()) => {},
                Err(e) => {
                    return Err(e);
                },
            }
        },
        None => {},
    }
    match csp {
        Some(v) => validate_header_value(id, "content_security_policy", v.as_str()),
        None => Ok(()),
    }
}

#[verifier::loop_isolation(false)]
#[verifier::rlimit(30)]
fn check_ip_policy(id: &str, allow: &Vec<Cidr>, deny: &Vec<Cidr>) -> (r: Result<(), ConfigError>)
    ensures
        r is Ok <==> ip_policy_ok(allow@, deny@),
        match middleware_error(id@, MiddlewareConfig::IpPolicy { allow: *allow, deny: *deny }) {
            Some(m) => r matches Err(ConfigError::Invalid(e)) && e@ == m,
            None => r is Ok,
        },
{
    if allow.len() > 256 || deny.len() > 256 || (allow.len() == 0 && deny.len() == 0) {
        return Err(mw_error(id, " IP policy is empty or exceeds CIDR bounds"));
    }
    let mut all: Vec<Cidr> = Vec::new();
    let mut i: usize = 0;
    while i < allow.len()
        invariant
            i <= allow@.len(),
            all@ == allow@.take(i as int),
        decreases allow@.len() - i,
    {
        all.push(allow[i]);
        i += 1;
    }
    let mut i: usize = 0;
    while i < deny.len()
        invariant
            i <= deny@.len(),
            all@ == allow@ + deny@.take(i as int),
        decreases deny@.len() - i,
    {
        all.push(deny[i]);
        i += 1;
    }
    assert(all@ =~= allow@ + deny@);
    let mut j: usize = 0;
    while j < all.len()
        invariant
            all@ == allow@ + deny@,
            j <= all@.len(),
            forall|a: int, b: int| 0 <= a < b < j ==> all@[a] != all@[b],
        decreases all@.len() - j,
    {
        let mut k: usize = 0;
        while k < j
            invariant
                all@ == allow@ + deny@,
                j < all@.len(),
                k <= j,
                forall|a: int| 0 <= a < k ==> all@[a] != all@[j as int],
            decreases j - k,
        {
            if all[k] == all[j] {
                assert((allow@ + deny@)[k as int] == (allow@ + deny@)[j as int]);
                return Err(mw_error(id, " IP policy contains duplicate CIDRs"));
            }
            k += 1;
        }
        j += 1;
    }
    Ok(())
}

fn check_cors_origin(o: &str) -> (r: bool)
    ensures
        r == cors_origin_ok(o@),
{
    if o.as_bytes().len() > 1024 {
        return false;
    }
    match WebUrl::parse(o) {
        None => false,
        Some(u) => (str_eq(u.scheme(), "http") || str_eq(u.scheme(), "https"))
            && u.host_str().is_some() && u.username().unicode_len() == 0 && !u.has_password()
            && str_eq(u.path(), "/") && !u.has_query() && !u.has_fragment() && str_eq(
            u.origin_ascii(),
            o,
        ),
    }
}

/// The message of the rule that CORS origin `j` breaks.
pub open spec fn cors_origin_error(id: Seq<char>, origins: Seq<String>, j: int) -> Option<Seq<char>> {
    let o = origins[j]@;
    if o != "*"@ && utf8(o).len() > 1024 {
        Some(mw_message(id, " has an oversized CORS origin"@))
    } else if o != "*"@ && url_from_str(o) is None {
        Some(mw_message(id, " has an invalid CORS origin"@))
    } else if o != "*"@ && !cors_origin_ok(o) {
        Some(mw_message(id, " has an unsafe or duplicate CORS origin"@))
    } else if exists|a: int| 0 <= a < j && (#[trigger] origins[a])@ == o {
        Some(mw_message(id, " has an unsafe or duplicate CORS origin"@))
    } else {
        None
    }
}

/// The message of the rule that CORS method `j` breaks.
pub open spec fn cors_method_error(id: Seq<char>, methods: Seq<String>, j: int) -> Option<Seq<char>> {
    let m = methods[j]@;
    if utf8(m).len() > 32 {
        Some(mw_message(id, " has an oversized CORS method"@))
    } else if !token_ok(utf8(m)) {
        Some(mw_message(id, " has an invalid CORS method"@))
    } else if m == "CONNECT"@ || exists|a: int| 0 <= a < j && (#[trigger] methods[a])@ == m {
        Some(mw_message(id, " has an unsafe or duplicate CORS method"@))
    } else {
        None
    }
}

/// The message of the rule that CORS header `j` breaks.
pub open spec fn cors_header_error(id: Seq<char>, headers: Seq<String>, j: int) -> Option<Seq<char>> {
    let h = headers[j]@;
    if utf8(h).len() > 64 {
        Some(mw_message(id, " has an oversized CORS header"@))
    } else if !(1 <= utf8(h).len() <= 65535 && forall|i: int|
        0 <= i < utf8(h).len() ==> tchar(#[trigger] utf8(h)[i])) {
        Some(mw_message(id, " has an invalid CORS header"@))
    } else if !canonical_header_name(utf8(h)) || exists|a: int|
        0 <= a < j && (#[trigger] headers[a])@ == h {
        Some(mw_message(id, " requires lowercase unique CORS headers"@))
    } else {
        None
    }
}

/// The first error of a CORS list from position `j` on; `kind` picks the
/// origin, method or header rules.
pub open spec fn cors_list_error(id: Seq<char>, items: Seq<String>, kind: int, j: int) -> Option<
    Seq<char>,
>
    decreases items.len() - j,
{
    if 0 <= j < items.len() {
        let e = if kind == 0 {
            cors_origin_error(id, items, j)
        } else if kind == 1 {
            cors_method_error(id, items, j)
        } else {
            cors_header_error(id, items, j)
        };
        match e {
            Some(m) => Some(m),
            None => cors_list_error(id, items, kind, j + 1),
        }
    } else {
        None
    }
}

/// The message of the first CORS rule that is broken.
pub open spec fn cors_error(
    id: Seq<char>,
    origins: Seq<String>,
    methods: Seq<String>,
    headers: Seq<String>,
    allow_credentials: bool,
    max_age_secs: u64,
) -> Option<Seq<char>> {
    if !(1 <= origins.len() <= 64 && 1 <= methods.len() <= 32 && headers.len() <= 64
        && max_age_secs <= 86_400) {
        Some(mw_message(id, " CORS policy exceeds safe bounds"@))
    } else if contains_string(origins, "*"@) && (origins.len() != 1 || allow_credentials) {
        Some(mw_message(id, " CORS wildcard cannot mix origins or credentials"@))
    } else if cors_list_error(id, origins, 0, 0) is Some {
        cors_list_error(id, origins, 0, 0)
    } else if cors_list_error(id, methods, 1, 0) is Some {
        cors_list_error(id, methods, 1, 0)
    } else {
        cors_list_error(id, headers, 2, 0)
    }
}

#[verifier::loop_isolation(false)]
fn check_cors(
    id: &str,
    origins: &Vec<String>,
    methods: &Vec<String>,
    headers: &Vec<String>,
    allow_credentials: bool,
    max_age_secs: u64,
) -> (r: Result<(), ConfigError>)
    ensures
        r is Ok <==> cors_ok(origins@, methods@, headers@, allow_credentials, max_age_secs),
        match cors_error(id@, origins@, methods@, headers@, allow_credentials, max_age_secs) {
            Some(m) => r matches Err(ConfigError::Invalid(e)) && e@ == m,
            None => r is Ok,
        },
{
    if origins.len() == 0 || origins.len() > 64 || methods.len() == 0 || methods.len() > 32
        || headers.len() > 64 || max_age_secs > 86_400 {
        return Err(mw_error(id, " CORS policy exceeds safe bounds"));
    }
    let wildcard = vec_contains_str(origins, "*");
    if wildcard && (origins.len() != 1 || allow_credentials) {
        return Err(mw_error(id, " CORS wildcard cannot mix origins or credentials"));
    }
    let mut j: usize = 0;
    while j < origins.len()
        invariant
            j <= origins@.len(),
            forall|i: int|
                0 <= i < j && (#[trigger] origins@[i])@ != "*"@ ==> cors_origin_ok(origins@[i]@),
            forall|a: int, b: int|
                0 <= a < b < j ==> (#[trigger] origins@[a])@ != (#[trigger] origins@[b])@,
            cors_list_error(id@, origins@, 0, 0) == cors_list_error(id@, origins@, 0, j as int),
        decreases origins@.len() - j,
    {
        let o = origins[j].as_str();
        if !str_eq(o, "*") {
            if o.as_bytes().len() > 1024 {
                return Err(mw_error(id, " has an oversized CORS origin"));
            }
            if WebUrl::parse(o).is_none() {
                return Err(mw_error(id, " has an invalid CORS origin"));
            }
            if !check_cors_origin(o) {
                return Err(mw_error(id, " has an unsafe or duplicate CORS origin"));
            }
        }
        let mut i: usize = 0;
        while i < j
            invariant
                j < origins@.len(),
                i <= j,
                o@ == origins@[j as int]@,
                forall|a: int| 0 <= a < i ==> (#[trigger] origins@[a])@ != origins@[j as int]@,
            decreases j - i,
        {
            if str_eq(origins[i].as_str(), o) {
                return Err(mw_error(id, " has an unsafe or duplicate CORS origin"));
            }
            i += 1;
        }
        j += 1;
    }
    let mut j: usize = 0;
    while j < methods.len()
        invariant
            j <= methods@.len(),
            forall|i: int| 0 <= i < j ==> cors_method_ok((#[trigger] methods@[i])@),
            forall|a: int, b: int|
                0 <= a < b < j ==> (#[trigger] methods@[a])@ != (#[trigger] methods@[b])@,
            cors_list_error(id@, methods@, 1, 0) == cors_list_error(id@, methods@, 1, j as int),
        decreases methods@.len() - j,
    {
        let m = methods[j].as_str();
        if m.as_bytes().len() > 32 {
            return Err(mw_error(id, " has an oversized CORS method"));
        }
        match parse_method(m) {
            None => {
                return Err(mw_error(id, " has an invalid CORS method"));
            },
            Some(parsed) => {
                if str_eq(parsed.as_str(), "CONNECT") || !str_eq(parsed.as_str(), m) {
                    return Err(mw_error(id, " has an unsafe or duplicate CORS method"));
                }
            },
        }
        let mut i: usize = 0;
        while i < j
            invariant
                j < methods@.len(),
                i <= j,
                m@ == methods@[j as int]@,
                forall|a: int| 0 <= a < i ==> (#[trigger] methods@[a])@ != methods@[j as int]@,
            decreases j - i,
        {
            if str_eq(methods[i].as_str(), m) {
                return Err(mw_error(id, " has an unsafe or duplicate CORS method"));
            }
            i += 1;
        }
        j += 1;
    }
    let mut j: usize = 0;
    while j < headers.len()
        invariant
            j <= headers@.len(),
            forall|i: int| 0 <= i < j ==> cors_header_ok((#[trigger] headers@[i])@),
            forall|a: int, b: int|
                0 <= a < b < j ==> (#[trigger] headers@[a])@ != (#[trigger] headers@[b])@,
            cors_list_error(id@, headers@, 2, 0) == cors_list_error(id@, headers@, 2, j as int),
        decreases headers@.len() - j,
    {
        let h = headers[j].as_str();
        if h.as_bytes().len() > 64 {
            return Err(mw_error(id, " has an oversized CORS header"));
        }
        match parse_header_name(h) {
            None => {
                return Err(mw_error(id, " has an invalid CORS header"));
            },
            Some(parsed) => {
                if !str_eq(parsed.as_str(), h) {
                    return Err(mw_error(id, " requires lowercase unique CORS headers"));
                }
            },
        }
        let mut i: usize = 0;
        while i < j
            invariant
                j < headers@.len(),
                i <= j,
                h@ == headers@[j as int]@,
                forall|a: int| 0 <= a < i ==> (#[trigger] headers@[a])@ != headers@[j as int]@,
            decreases j - i,
        {
            if str_eq(headers[i].as_str(), h) {
                return Err(mw_error(id, " requires lowercase unique CORS headers"));
            }
            i += 1;
        }
        j += 1;
    }
    Ok(())
}


fn realm_valid(realm: &str) -> (r: bool)
    ensures
        r == (1 <= utf8(realm@).len() <= 64 && forall|k: int|
            0 <= k < utf8(realm@).len() ==> realm_byte(#[trigger] utf8(realm@)[k])),
{
    let b = realm.as_bytes();
    if b.len() == 0 || b.len() > 64 {
        return false;
    }
    let mut i: usize = 0;
    while i < b.len()
        invariant
            b@ == utf8(realm@),
            i <= b@.len(),
            forall|k: int| 0 <= k < i ==> realm_byte(#[trigger] b@[k]),
        decreases b@.len() - i,
    {
        let c = b[i];
        if !(byte_is_alnum(c) || c == 0x20 || c == 0x2d || c == 0x5f || c == 0x2e) {
            assert(!realm_byte(b@[i as int]));
            return false;
        }
        i += 1;
    }
    true
}

fn user_name_valid(name: &str) -> (r: bool)
    ensures
        r == (1 <= utf8(name@).len() <= 64 && forall|k: int|
            0 <= k < utf8(name@).len() ==> user_byte(#[trigger] utf8(name@)[k])),
{
    let b = name.as_bytes();
    if b.len() == 0 || b.len() > 64 {
        return false;
    }
    let mut i: usize = 0;
    while i < b.len()
        invariant
            b@ == utf8(name@),
            i <= b@.len(),
            forall|k: int| 0 <= k < i ==> user_byte(#[trigger] b@[k]),
        decreases b@.len() - i,
    {
        let c = b[i];
        if !(0x21 <= c && c <= 0x7e && c != 0x3a && c != 0x22 && c != 0x5c) {
            assert(!user_byte(b@[i as int]));
            return false;
        }
        i += 1;
    }
    true
}

#[verifier::loop_isolation(false)]
fn check_basic_auth(
    id: &str,
    realm: &String,
    users: &OrderedMap<String>,
    max_concurrent: usize,
    timeout_secs: u64,
) -> (r: Result<(), ConfigError>)
    ensures
        r is Ok <==> basic_auth_ok(realm@, users.spec_entries(), max_concurrent, timeout_secs),
        match middleware_error(id@, (MiddlewareConfig::BasicAuth {
            realm: *realm,
            users: *users,
            max_concurrent_verifications: max_concurrent,
            timeout_secs,
        })) {
            Some(m) => r matches Err(ConfigError::Invalid(e)) && e@ == m,
            None => r is Ok,
        },
{
    if !realm_valid(realm.as_str()) || users.len() == 0 || users.len() > 64 || max_concurrent == 0
        || max_concurrent > 1_024 || timeout_secs == 0 || timeout_secs > 30 {
        return Err(mw_error(id, " Basic authentication policy exceeds safe bounds"));
    }
    let ghost e = users.spec_entries();
    let mut i: usize = 0;
    while i < users.len()
        invariant
            e == users.spec_entries(),
            i <= e.len(),
            forall|j: int| 0 <= j < i ==> basic_user_ok((#[trigger] e[j]).0@, e[j].1@),
        decreases e.len() - i,
    {
        let (name, reference) = users.entry(i);
        if !user_name_valid(name.as_str()) || !secret_ref_valid(reference.as_str()) {
            return Err(mw_error(id, " has an invalid Basic authentication user"));
        }
        i += 1;
    }
    Ok(())
}

pub fn bytes_have_upper(b: &[u8]) -> (r: bool)
    ensures
        r == has_upper(b@),
{
    let mut i: usize = 0;
    while i < b.len()
        invariant
            i <= b@.len(),
            forall|k: int| 0 <= k < i ==> !is_upper(#[trigger] b@[k]),
        decreases b@.len() - i,
    {
        if byte_is_upper(b[i]) {
            return true;
        }
        i += 1;
    }
    false
}

#[verifier::loop_isolation(false)]
fn check_forward_auth(
    id: &str,
    upstream_group: &str,
    path: &str,
    request_headers: &Vec<String>,
    response_headers: &Vec<String>,
    principal: &str,
    redirect_hosts: &Vec<String>,
    timeout_secs: u64,
) -> (r: Result<(), ConfigError>)
    ensures
        r is Ok <==> forward_auth_ok(
            upstream_group@,
            path@,
            request_headers@,
            response_headers@,
            principal@,
            redirect_hosts@,
            timeout_secs,
        ),
        match forward_auth_error(
            id@,
            upstream_group@,
            path@,
            request_headers@,
            response_headers@,
            principal@,
            redirect_hosts@,
            timeout_secs,
        ) {
            Some(m) => r matches Err(ConfigError::Invalid(e)) && e@ == m,
            None => r is Ok,
        },
{
    match valid_id(upstream_group) {
        Ok(()) => {},
        Err(e) => {
            return Err(e);
        },
    }
    match validate_rewrite_path(id, path, false) {
        Ok(()) => {},
        Err(e) => {
            return Err(e);
        },
    }
    if request_headers.len() > 32 || response_headers.len() == 0 || response_headers.len() > 32
        || redirect_hosts.len() > 16 || timeout_secs == 0 || timeout_secs > 10 {
        return Err(mw_error(id, " ForwardAuth policy exceeds safe bounds"));
    }
    match validate_forward_auth_headers(id, "request", request_headers, true) {
        Ok(()) => {},
        Err(e) => {
            return Err(e);
        },
    }
    match validate_forward_auth_headers(id, "response", response_headers, false) {
        Ok(()) => {},
        Err(e) => {
            return Err(e);
        },
    }
    let name = match validate_forward_auth_header(id, "principal", principal, false) {
        Ok(n) => n,
        Err(e) => {
            return Err(e);
        },
    };
    let xdash: [u8; 2] = [0x78, 0x2d];
    assert(xdash@ =~= seq![0x78u8, 0x2du8]);
    if !slice_starts_with(name.as_bytes(), xdash.as_slice()) || !vec_contains_str(
        response_headers,
        name,
    ) {
        return Err(
            mw_error(id, " ForwardAuth principal_header must be response-allowlisted"),
        );
    }
    let wild: [u8; 2] = [0x2a, 0x2e];
    assert(wild@ =~= seq![0x2au8, 0x2eu8]);
    let mut j: usize = 0;
    while j < redirect_hosts.len()
        invariant
            wild@ == seq![0x2au8, 0x2eu8],
            j <= redirect_hosts@.len(),
            forall|i: int| 0 <= i < j ==> redirect_host_ok((#[trigger] redirect_hosts@[i])@),
            forall|a: int, b: int|
                0 <= a < b < j ==> (#[trigger] redirect_hosts@[a])@ != (
                #[trigger] redirect_hosts@[b])@,
            redirect_hosts_error(id@, redirect_hosts@, 0) == redirect_hosts_error(
                id@,
                redirect_hosts@,
                j as int,
            ),
        decreases redirect_hosts@.len() - j,
    {
        let h = redirect_hosts[j].as_str();
        let mut dup = false;
        let mut i: usize = 0;
        while i < j
            invariant
                j < redirect_hosts@.len(),
                i <= j,
                h@ == redirect_hosts@[j as int]@,
                dup == exists|a: int| 0 <= a < i && (#[trigger] redirect_hosts@[a])@ == h@,
            decreases j - i,
        {
            if str_eq(redirect_hosts[i].as_str(), h) {
                dup = true;
            }
            i += 1;
        }
        if slice_starts_with(h.as_bytes(), wild.as_slice()) || bytes_have_upper(h.as_bytes())
            || dup {
            return Err(
                mw_error(id, " has an unsafe or duplicate ForwardAuth redirect host"),
            );
        }
        match valid_certificate_host(h) {
            Ok(()) => {},
            Err(e) => {
                return Err(e);
            },
        }
        j += 1;
    }
    Ok(())
}

fn check_rewrite(id: &str, from_prefix: &Option<String>, to: &str) -> (r: Result<(), ConfigError>)
    ensures
        r is Ok <==> rewrite_ok(*from_prefix, to@),
        match rewrite_error(id@, *from_prefix, to@) {
            Some(m) => r matches Err(ConfigError::Invalid(e)) && e@ == m,
            None => r is Ok,
        },
{
    match validate_rewrite_path(id, to, from_prefix.is_some()) {
        Ok(()) => {},
        Err(e) => {
            return Err(e);
        },
    }
    match from_prefix {
        Some(f) => {
            match validate_rewrite_path(id, f.as_str(), true) {
                Ok(()) => {},
                Err(e) => {
                    return Err(e);
                },
            }
            if str_eq(f.as_str(), to) {
                return Err(mw_error(id, " rewrite does not change the path"));
            }
            Ok(())
        },
        None => Ok(()),
    }
}

/// The number of added values, capped at 65.
fn count_added(add: &OrderedMap<Vec<String>>) -> (r: usize)
    ensures
        r == if added_values(add.spec_entries()) <= 65 {
            added_values(add.spec_entries())
        } else {
            65
        },
{
    let ghost e = add.spec_entries();
    let mut total: usize = 0;
    let mut i: usize = 0;
    while i < add.len()
        invariant
            e == add.spec_entries(),
            i <= e.len(),
            total == if added_values(e.take(i as int)) <= 65 {
                added_values(e.take(i as int))
            } else {
                65
            },
        decreases e.len() - i,
    {
        let (_, values) = add.entry(i);
        proof {
            assert(e.take(i + 1).drop_last() =~= e.take(i as int));
            lemma_added_values_nonneg(e.take(i as int));
        }
        let n = values.len();
        if total >= 65 || n >= 65 - total {
            total = 65;
        } else {
            total = total + n;
        }
        i += 1;
    }
    assert(e.take(e.len() as int) =~= e);
    total
}

proof fn lemma_added_values_nonneg(add: Seq<(String, Vec<String>)>)
    ensures
        added_values(add) >= 0,
    decreases add.len(),
{
    if add.len() > 0 {
        lemma_added_values_nonneg(add.drop_last());
    }
}

fn check_header_mutation(
    id: &str,
    request_set: &OrderedMap<String>,
    request_add: &OrderedMap<Vec<String>>,
    request_remove: &Vec<String>,
    response_set: &OrderedMap<String>,
    response_add: &OrderedMap<Vec<String>>,
    response_remove: &Vec<String>,
) -> (r: Result<(), ConfigError>)
    ensures
        r is Ok <==> {
            &&& mutations_ok(
                request_set.spec_entries(),
                request_add.spec_entries(),
                request_remove@,
                true,
            )
            &&& mutations_ok(
                response_set.spec_entries(),
                response_add.spec_entries(),
                response_remove@,
                false,
            )
            &&& 1 <= request_set.spec_entries().len() + added_values(request_add.spec_entries())
                + request_remove@.len() + response_set.spec_entries().len() + added_values(
                response_add.spec_entries(),
            ) + response_remove@.len() <= 64
        },
        match header_mutation_error(
            id@,
            request_set.spec_entries(),
            request_add.spec_entries(),
            request_remove@,
            response_set.spec_entries(),
            response_add.spec_entries(),
            response_remove@,
        ) {
            Some(m) => r matches Err(ConfigError::Invalid(e)) && e@ == m,
            None => r is Ok,
        },
{
    match validate_header_mutations(id, "request", request_set, request_add, request_remove, true) {
        Ok(()) => {},
        Err(e) => {
            return Err(e);
        },
    }
    match validate_header_mutations(
        id,
        "response",
        response_set,
        response_add,
        response_remove,
        false,
    ) {
        Ok(()) => {},
        Err(e) => {
            return Err(e);
        },
    }
    proof {
        lemma_added_values_nonneg(request_add.spec_entries());
        lemma_added_values_nonneg(response_add.spec_entries());
    }
    let a = count_added(request_add);
    let b = count_added(response_add);
    let operations: u128 = request_set.len() as u128 + a as u128 + request_remove.len() as u128
        + response_set.len() as u128 + b as u128 + response_remove.len() as u128;
    if operations == 0 || operations > 64 {
        return Err(mw_error(id, " header mutation count is outside 1..=64"));
    }
    Ok(())
}


fn static_content_type_valid(t: &str) -> (r: bool)
    ensures
        r == static_content_type_ok(t@),
{
    str_eq(t, "text/plain; charset=utf-8") || str_eq(t, "text/html; charset=utf-8")
}

fn check_maintenance(
    id: &str,
    status: u16,
    body: &str,
    content_type: &str,
    retry_after_secs: Option<u64>,
) -> (r: Result<(), ConfigError>)
    ensures
        r is Ok <==> maintenance_ok(status, body@, content_type@, retry_after_secs),
        r matches Err(ConfigError::Invalid(m)) ==> m@ == mw_message(
            id@,
            " has an unsafe maintenance response"@,
        ),
{
    let n = body.as_bytes().len();
    let retry_bad = match retry_after_secs {
        Some(s) => s == 0 || s > 86_400,
        None => false,
    };
    if !(status == 200 || status == 503) || n == 0 || n > 64 * 1024 || !static_content_type_valid(
        content_type,
    ) || retry_bad || (status == 200 && retry_after_secs.is_some()) {
        return Err(mw_error(id, " has an unsafe maintenance response"));
    }
    Ok(())
}

fn statuses_unique_5xx(statuses: &Vec<u16>) -> (r: bool)
    ensures
        r == (no_duplicates(statuses@) && forall|i: int|
            0 <= i < statuses@.len() ==> 500 <= #[trigger] statuses@[i] <= 599),
{
    let mut j: usize = 0;
    while j < statuses.len()
        invariant
            j <= statuses@.len(),
            forall|i: int| 0 <= i < j ==> 500 <= #[trigger] statuses@[i] <= 599,
            forall|a: int, b: int| 0 <= a < b < j ==> statuses@[a] != statuses@[b],
        decreases statuses@.len() - j,
    {
        let mut i: usize = 0;
        while i < j
            invariant
                j < statuses@.len(),
                i <= j,
                forall|a: int| 0 <= a < i ==> statuses@[a] != statuses@[j as int],
            decreases j - i,
        {
            if statuses[i] == statuses[j] {
                return false;
            }
            i += 1;
        }
        if statuses[j] < 500 || statuses[j] > 599 {
            return false;
        }
        j += 1;
    }
    true
}

fn check_custom_error(id: &str, statuses: &Vec<u16>, body: &str, content_type: &str) -> (r: Result<
    (),
    ConfigError,
>)
    ensures
        r is Ok <==> custom_error_ok(statuses@, body@, content_type@),
        r matches Err(ConfigError::Invalid(m)) ==> m@ == mw_message(
            id@,
            " has an unsafe custom error response"@,
        ),
{
    let n = body.as_bytes().len();
    if statuses.len() == 0 || statuses.len() > 16 || !statuses_unique_5xx(statuses) || n == 0 || n
        > 64 * 1024 || !static_content_type_valid(content_type) {
        return Err(mw_error(id, " has an unsafe custom error response"));
    }
    Ok(())
}

fn has_whitespace_char(v: &str) -> (r: bool)
    ensures
        r == exists|k: int| 0 <= k < v@.len() && is_ws_char(#[trigger] v@[k]),
{
    let c = str_chars(v);
    let mut i: usize = 0;
    while i < c.len()
        invariant
            c@ == v@,
            i <= c@.len(),
            forall|k: int| 0 <= k < i ==> !is_ws_char(#[trigger] c@[k]),
        decreases c@.len() - i,
    {
        if char_is_whitespace(c[i]) {
            return true;
        }
        i += 1;
    }
    false
}

fn media_type_valid(v: &str) -> (r: bool)
    ensures
        r == media_type_ok(v@),
{
    let b = v.as_bytes();
    b.len() != 0 && b.len() <= 127 && !bytes_have_upper(b) && !slice_has_byte(b, 0x3b)
        && !has_whitespace_char(v) && slice_has_byte(b, 0x2f)
}

fn check_compression(
    id: &str,
    encodings: &Vec<CompressionEncoding>,
    content_types: &Vec<String>,
    min_bytes: usize,
    max_concurrent: usize,
) -> (r: Result<(), ConfigError>)
    ensures
        r is Ok <==> compression_ok(encodings@, content_types@, min_bytes, max_concurrent),
        r matches Err(ConfigError::Invalid(m)) ==> m@ == mw_message(
            id@,
            " has an unsafe compression policy"@,
        ),
{
    let encodings_ok = encodings.len() != 0 && encodings.len() <= 2 && (encodings.len() == 1
        || encodings[0] != encodings[1]);
    proof {
        if encodings@.len() == 2 {
            assert(no_duplicates(encodings@) == (encodings@[0] != encodings@[1]));
        }
    }
    let mut types_ok = true;
    let mut j: usize = 0;
    while j < content_types.len()
        invariant
            j <= content_types@.len(),
            types_ok == ((forall|i: int|
                0 <= i < j ==> media_type_ok((#[trigger] content_types@[i])@)) && forall|
                a: int,
                b: int,
            | 0 <= a < b < j ==> (#[trigger] content_types@[a])@ != (
            #[trigger] content_types@[b])@),
        decreases content_types@.len() - j,
    {
        let t = content_types[j].as_str();
        let mut fresh = true;
        let mut i: usize = 0;
        while i < j
            invariant
                j < content_types@.len(),
                i <= j,
                t@ == content_types@[j as int]@,
                fresh == forall|a: int|
                    0 <= a < i ==> (#[trigger] content_types@[a])@ != t@,
            decreases j - i,
        {
            if str_eq(content_types[i].as_str(), t) {
                fresh = false;
            }
            i += 1;
        }
        if !media_type_valid(t) || !fresh {
            types_ok = false;
        }
        j += 1;
    }
    if !encodings_ok || content_types.len() == 0 || content_types.len() > 32 || min_bytes < 256
        || min_bytes > 1_048_576 || max_concurrent == 0 || max_concurrent > 32 || !types_ok {
        return Err(mw_error(id, " has an unsafe compression policy"));
    }
    Ok(())
}

fn check_redirect(id: &str, location: &str, status: u16, preserve_query: bool) -> (r: Result<
    (),
    ConfigError,
>)
    ensures
        r is Ok <==> (redirect_status_ok(status) && header_value_valid(location@)
            && redirect_location_ok(location@, preserve_query)),
        match redirect_error(id@, location@, status, preserve_query) {
            Some(m) => r matches Err(ConfigError::Invalid(e)) && e@ == m,
            None => r is Ok,
        },
{
    if !(status == 301 || status == 302 || status == 303 || status == 307 || status == 308) {
        return Err(mw_error(id, " has an invalid redirect status"));
    }
    match validate_header_value(id, "location", location) {
        Ok(()) => {},
        Err(e) => {
            return Err(e);
        },
    }
    match WebUrl::parse(location) {
        Some(u) => {
            if !(str_eq(u.scheme(), "http") || str_eq(u.scheme(), "https")) || u.host_str().is_none()
                || u.username().unicode_len() != 0 || u.has_password() || u.has_fragment() || (
            preserve_query && u.has_query()) {
                return Err(mw_error(id, " has an unsafe absolute redirect"));
            }
            Ok(())
        },
        None => {
            match parse_uri(location) {
                None => Err(mw_error(id, " has an invalid relative redirect")),
                Some(t) => {
                    let slash: [u8; 1] = [0x2f];
                    let double: [u8; 2] = [0x2f, 0x2f];
                    assert(slash@ =~= seq![0x2fu8]);
                    assert(double@ =~= seq![0x2fu8, 0x2fu8]);
                    let path = t.0.as_str().as_bytes();
                    if !slice_starts_with(path, slash.as_slice()) || slice_starts_with(
                        path,
                        double.as_slice(),
                    ) || t.1 || t.2 || (preserve_query && t.3) {
                        return Err(mw_error(id, " has an unsafe relative redirect"));
                    }
                    Ok(())
                },
            }
        },
    }
}

/// Validates one middleware definition.
pub fn validate_middleware(id: &str, middleware: &MiddlewareConfig) -> (r: Result<
    (),
    ConfigError,
>)
    ensures
        r is Ok <==> middleware_ok(*middleware),
        match middleware_error(id@, *middleware) {
            Some(m) => r matches Err(ConfigError::Invalid(e)) && e@ == m,
            None => r is Ok,
        },
{
    match middleware {
        MiddlewareConfig::SecurityHeaders {
            hsts,
            content_security_policy,
            acknowledge_hsts_risk,
            ..
        } => check_security_headers(id, hsts, content_security_policy, *acknowledge_hsts_risk),
        MiddlewareConfig::RateLimit { requests_per_second, burst, max_keys, idle_secs, .. } => {
            if *requests_per_second == 0 || *requests_per_second > 1_000_000 || *burst == 0
                || *burst > 1_000_000 || *max_keys == 0 || *max_keys > 100_000 || *idle_secs == 0
                || *idle_secs > 86_400 {
                return Err(mw_error(id, " rate limit is outside safe bounds"));
            }
            Ok(())
        },
        MiddlewareConfig::InFlightLimit { max_requests, max_per_client, status } => {
            if *max_requests == 0 || *max_requests > 100_000 || *max_per_client == 0
                || *max_per_client > *max_requests || !(*status == 429 || *status == 503) {
                return Err(mw_error(id, " in-flight limit is outside safe bounds"));
            }
            Ok(())
        },
        MiddlewareConfig::IpPolicy { allow, deny } => check_ip_policy(id, allow, deny),
        MiddlewareConfig::Cors { origins, methods, headers, allow_credentials, max_age_secs } =>
            check_cors(id, origins, methods, headers, *allow_credentials, *max_age_secs),
        MiddlewareConfig::BasicAuth { realm, users, max_concurrent_verifications, timeout_secs } =>
            check_basic_auth(id, realm, users, *max_concurrent_verifications, *timeout_secs),
        MiddlewareConfig::ForwardAuth {
            upstream_group,
            path,
            request_headers,
            response_headers,
            principal_header,
            redirect_hosts,
            timeout_secs,
        } => check_forward_auth(
            id,
            upstream_group.as_str(),
            path.as_str(),
            request_headers,
            response_headers,
            principal_header.as_str(),
            redirect_hosts,
            *timeout_secs,
        ),
        MiddlewareConfig::Rewrite { from_prefix, to } => check_rewrite(id, from_prefix, to.as_str()),
        MiddlewareConfig::HeaderMutation {
            request_set,
            request_add,
            request_remove,
            response_set,
            response_add,
            response_remove,
        } => check_header_mutation(
            id,
            request_set,
            request_add,
            request_remove,
            response_set,
            response_add,
            response_remove,
        ),
        MiddlewareConfig::Maintenance { status, body, content_type, retry_after_secs, .. } =>
            check_maintenance(id, *status, body.as_str(), content_type.as_str(), *retry_after_secs),
        MiddlewareConfig::CustomError { statuses, body, content_type } => check_custom_error(
            id,
            statuses,
            body.as_str(),
            content_type.as_str(),
        ),
        MiddlewareConfig::Compression { encodings, content_types, min_bytes, max_concurrent, .. } =>
            check_compression(id, encodings, content_types, *min_bytes, *max_concurrent),
        MiddlewareConfig::Redirect { location, status, preserve_query } => check_redirect(
            id,
            location.as_str(),
            *status,
            *preserve_query,
        ),
    }
}

} // verus!
