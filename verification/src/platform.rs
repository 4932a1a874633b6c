//! Administration, service-discovery provider and observability rules.

use vstd::prelude::*;
use crate::text::{utf8, str_eq, is_control, has_byte, starts_with, no_duplicates, str_chars,
    slice_has_byte, slice_starts_with, byte_is_control};
use crate::checks::distinct_strings;
use crate::error::{ConfigError, decimal, decimal_text, join2, join3};
use crate::naming::{id_ok, upstream_host_ok, cert_host_ok, valid_id, valid_upstream_host,
    valid_certificate_host, id_message, cert_host_message, upstream_host_reason};
use crate::net::{IpAddress, std_ip_from_str};
use crate::secret::{secret_ref_ok, secret_ref_valid};
use crate::web::{url_from_str, WebUrl, WebUrlView};
use crate::provider::{ProviderConfig, ProviderScheme, MAX_PROVIDERS};
use crate::schema::{Config, AdminConfig, AdminWebConfig, AdminWebOidcConfig, UpstreamGroupConfig,
    MiddlewareConfig, RouteConfig, OtlpTraceConfig};
use crate::conflict::opt_text;

verus! {

/// Position `i` lies outside `b` or holds `/`.
pub open spec fn sep_or_edge(b: Seq<u8>, i: int) -> bool {
    i < 0 || i >= b.len() || b[i] == 0x2f
}

/// A `..` path segment starts at `i`.
pub open spec fn parent_at(b: Seq<u8>, i: int) -> bool {
    &&& sep_or_edge(b, i - 1)
    &&& 0 <= i && i + 1 < b.len()
    &&& b[i] == 0x2e && b[i + 1] == 0x2e
    &&& sep_or_edge(b, i + 2)
}

/// A `.` path segment is at `i`.
pub open spec fn current_at(b: Seq<u8>, i: int) -> bool {
    sep_or_edge(b, i - 1) && 0 <= i < b.len() && b[i] == 0x2e && sep_or_edge(b, i + 1)
}

/// The path names its parent directory somewhere.
pub open spec fn has_parent_segment(b: Seq<u8>) -> bool {
    exists|i: int| 0 <= i < b.len() && #[trigger] parent_at(b, i)
}

/// Some byte belongs to a segment that is neither empty, `.` nor `..`, so
/// the path has a final file name.
pub open spec fn has_named_segment(b: Seq<u8>) -> bool {
    exists|i: int|
        0 <= i < b.len() && b[i] != 0x2f && !current_at(b, i) && !#[trigger] parent_at(b, i) && !(
        i > 0 && parent_at(b, i - 1))
}

pub open spec fn has_control(b: Seq<u8>) -> bool {
    exists|i: int| 0 <= i < b.len() && is_control(#[trigger] b[i])
}

fn bytes_have_control(b: &[u8]) -> (r: bool)
    ensures
        r == has_control(b@),
{
    let mut i: usize = 0;
    while i < b.len()
        invariant
            i <= b@.len(),
            forall|k: int| 0 <= k < i ==> !is_control(#[trigger] b@[k]),
        decreases b@.len() - i,
    {
        if byte_is_control(b[i]) {
            return true;
        }
        i += 1;
    }
    false
}

fn sep_or_edge_exec(b: &[u8], i: usize, offset: usize, minus: bool) -> (r: bool)
    ensures
        r == sep_or_edge(b@, if minus { i - offset } else { i + offset }),
{
    if minus {
        if i < offset {
            return true;
        }
        let k = i - offset;
        k >= b.len() || b[k] == 0x2f
    } else {
        if i >= b.len() || offset >= b.len() - i {
            return true;
        }
        b[i + offset] == 0x2f
    }
}

fn parent_at_exec(b: &[u8], i: usize) -> (r: bool)
    requires
        i < b@.len(),
    ensures
        r == parent_at(b@, i as int),
{
    sep_or_edge_exec(b, i, 1, true) && b.len() - i > 1 && b[i] == 0x2e && b[i + 1] == 0x2e
        && sep_or_edge_exec(b, i, 2, false)
}

fn current_at_exec(b: &[u8], i: usize) -> (r: bool)
    requires
        i < b@.len(),
    ensures
        r == current_at(b@, i as int),
{
    sep_or_edge_exec(b, i, 1, true) && b[i] == 0x2e && sep_or_edge_exec(b, i, 1, false)
}

/// Whether a path text holds a `..` segment.
pub fn path_has_parent(b: &[u8]) -> (r: bool)
    ensures
        r == has_parent_segment(b@),
{
    let mut i: usize = 0;
    while i < b.len()
        invariant
            i <= b@.len(),
            forall|k: int| 0 <= k < i ==> !#[trigger] parent_at(b@, k),
        decreases b@.len() - i,
    {
        if parent_at_exec(b, i) {
            return true;
        }
        i += 1;
    }
    false
}

/// Whether a path text has a final file name.
pub fn path_has_name(b: &[u8]) -> (r: bool)
    ensures
        r == has_named_segment(b@),
{
    let mut i: usize = 0;
    while i < b.len()
        invariant
            i <= b@.len(),
            forall|k: int|
                0 <= k < i ==> !(b@[k] != 0x2f && !current_at(b@, k) && !#[trigger] parent_at(
                    b@,
                    k,
                ) && !(k > 0 && parent_at(b@, k - 1))),
        decreases b@.len() - i,
    {
        if b[i] != 0x2f && !current_at_exec(b, i) && !parent_at_exec(b, i) && !(i > 0
            && parent_at_exec(b, i - 1)) {
            return true;
        }
        i += 1;
    }
    false
}

/// An absolute, bounded socket path without control bytes or `..`.
pub open spec fn socket_path_ok(b: Seq<u8>) -> bool {
    &&& 1 <= b.len() <= 4_096
    &&& !has_control(b)
    &&& b[0] == 0x2f
    &&& !has_parent_segment(b)
}

/// Unicode control characters (general category Cc), as `char::is_control`.
pub open spec fn is_cc(c: char) -> bool {
    c as u32 <= 0x1f || (0x7f <= c as u32 <= 0x9f)
}

pub open spec fn has_cc(s: Seq<char>) -> bool {
    exists|i: int| 0 <= i < s.len() && is_cc(#[trigger] s[i])
}

pub fn text_has_control(s: &str) -> (r: bool)
    ensures
        r == has_cc(s@),
{
    let c = str_chars(s);
    let mut i: usize = 0;
    while i < c.len()
        invariant
            c@ == s@,
            i <= c@.len(),
            forall|k: int| 0 <= k < i ==> !is_cc(#[trigger] c@[k]),
        decreases c@.len() - i,
    {
        let u = c[i] as u32;
        if u <= 0x1f || (0x7f <= u && u <= 0x9f) {
            return true;
        }
        i += 1;
    }
    false
}

/// A nonempty text of at most `max` bytes without control characters.
pub open spec fn bounded_label(s: Seq<char>, max: int) -> bool {
    1 <= utf8(s).len() <= max && !has_cc(s)
}

fn bounded_label_valid(s: &str, max: usize) -> (r: bool)
    ensures
        r == bounded_label(s@, max as int),
{
    let n = s.as_bytes().len();
    n != 0 && n <= max && !text_has_control(s)
}

/// An HTTPS issuer URL without credentials, query or fragment, written as the
/// URL's serialization, or as it without the trailing `/` of a root path.
pub open spec fn issuer_ok(text: Seq<char>, u: WebUrlView) -> bool {
    &&& utf8(text).len() <= 2_048
    &&& u.scheme == "https"@
    &&& u.host is Some
    &&& u.username.len() == 0
    &&& !u.has_password
    &&& u.query is None
    &&& u.fragment is None
    &&& (text == u.serialization || (u.path == "/"@ && u.serialization == text + seq!['/']))
}

/// The OpenID Connect sign-in policy rules.
pub open spec fn oidc_ok(o: AdminWebOidcConfig) -> bool {
    let groups = o.groups.viewer@ + o.groups.auditor@ + o.groups.operator@ + o.groups.admin@;
    &&& url_from_str(o.issuer@) is Some
    &&& issuer_ok(o.issuer@, url_from_str(o.issuer@)->0)
    &&& bounded_label(o.client_id@, 256)
    &&& secret_ref_ok(utf8(o.client_secret@))
    &&& match o.ca_bundle {
        Some(c) => secret_ref_ok(utf8(c@)),
        None => true,
    }
    &&& bounded_label(o.groups_claim@, 128)
    &&& o.groups.viewer@.len() <= 64
    &&& o.groups.auditor@.len() <= 64
    &&& o.groups.operator@.len() <= 64
    &&& o.groups.admin@.len() <= 64
    &&& groups.len() <= 256
    &&& forall|i: int| 0 <= i < groups.len() ==> bounded_label((#[trigger] groups[i])@, 256)
    &&& distinct_strings(groups)
}

fn append_clones(out: &mut Vec<String>, v: &Vec<String>)
    ensures
        final(out)@ == old(out)@ + v@,
{
    let ghost start = out@;
    let mut i: usize = 0;
    while i < v.len()
        invariant
            i <= v@.len(),
            out@ == start + v@.take(i as int),
        decreases v@.len() - i,
    {
        out.push(v[i].clone());
        i += 1;
    }
    assert(v@.take(v@.len() as int) =~= v@);
}

/// The message of the first sign-in policy rule broken.
pub open spec fn oidc_error(o: AdminWebOidcConfig) -> Option<Seq<char>> {
    let groups = o.groups.viewer@ + o.groups.auditor@ + o.groups.operator@ + o.groups.admin@;
    if url_from_str(o.issuer@) is None {
        Some("admin.web.oidc.issuer is invalid"@)
    } else if !issuer_ok(o.issuer@, url_from_str(o.issuer@)->0) {
        Some(
            "admin.web.oidc.issuer must be a canonical HTTPS URL without credentials, query, or fragment"@,
        )
    } else if !bounded_label(o.client_id@, 256) {
        Some("admin.web.oidc.client_id is outside safe bounds"@)
    } else if !secret_ref_ok(utf8(o.client_secret@)) {
        Some("admin.web.oidc.client_secret has an invalid secret reference"@)
    } else if o.ca_bundle is Some && !secret_ref_ok(utf8(o.ca_bundle->0@)) {
        Some("admin.web.oidc.ca_bundle has an invalid secret reference"@)
    } else if !bounded_label(o.groups_claim@, 128) {
        Some("admin.web.oidc.groups_claim is outside safe bounds"@)
    } else if !(o.groups.viewer@.len() <= 64 && o.groups.auditor@.len() <= 64
        && o.groups.operator@.len() <= 64 && o.groups.admin@.len() <= 64 && groups.len() <= 256) {
        Some("admin.web.oidc role group lists exceed safe bounds"@)
    } else if !((forall|i: int| 0 <= i < groups.len() ==> bounded_label((#[trigger] groups[i])@, 256))
        && distinct_strings(groups)) {
        Some("admin.web.oidc group names must be bounded, nonempty, and unique across roles"@)
    } else {
        None
    }
}

/// The message of the first browser-administration rule broken.
pub open spec fn admin_web_error(w: AdminWebConfig) -> Option<Seq<char>> {
    if !(w.bind.ip.spec_loopback() && w.bind.port != 0) {
        Some("admin.web.bind must use a nonzero loopback address"@)
    } else if w.origin@ != "http://localhost:"@ + decimal_text(w.bind.port as nat) {
        Some(
            "admin.web.origin must be exactly "@ + ("http://localhost:"@ + decimal_text(
                w.bind.port as nat,
            )),
        )
    } else {
        match w.oidc {
            None => if w.enabled {
                Some("admin.web.oidc is required when browser administration is enabled"@)
            } else {
                None
            },
            Some(o) => if oidc_error(o) is Some {
                oidc_error(o)
            } else if w.enabled && o.groups.admin@.len() == 0 {
                Some("admin.web.oidc.groups.admin requires at least one group"@)
            } else {
                None
            },
        }
    }
}

/// The message of the first administration rule broken.
pub open spec fn admin_error(a: AdminConfig) -> Option<Seq<char>> {
    if a.unix_socket is Some && !socket_path_ok(utf8(a.unix_socket->0@)) {
        Some("admin.unix_socket must be an absolute path without parent traversal"@)
    } else if !(a.allowed_uids@.len() <= 64 && no_duplicates(a.allowed_uids@)) {
        Some("admin.allowed_uids must contain at most 64 unique values"@)
    } else if a.audit_key is Some && !secret_ref_ok(utf8(a.audit_key->0@)) {
        Some("admin.audit_key has an invalid secret reference"@)
    } else if !(1 <= a.max_body_bytes <= 1024 * 1024 && 1 <= a.max_in_flight <= 256 && 1
        <= a.max_auth_in_flight <= 32 && 1 <= a.request_timeout_secs <= 60 && 1
        <= a.requests_per_second <= 1_000 && a.requests_per_second <= a.burst <= 5_000) {
        Some("administrative resource limits are outside safe bounds"@)
    } else {
        admin_web_error(a.web)
    }
}

/// Validates the OpenID Connect sign-in policy.
#[verifier::loop_isolation(false)]
pub fn validate_admin_oidc(oidc: &AdminWebOidcConfig) -> (r: Result<(), ConfigError>)
    ensures
        r is Ok <==> oidc_ok(*oidc),
        match oidc_error(*oidc) {
            Some(m) => r matches Err(ConfigError::Invalid(e)) && e@ == m,
            None => r is Ok,
        },
{
    let issuer = match WebUrl::parse(oidc.issuer.as_str()) {
        Some(u) => u,
        None => {
            return Err(ConfigError::invalid("admin.web.oidc.issuer is invalid"));
        },
    };
    let text = oidc.issuer.as_str();
    let serialization = issuer.as_str();
    let mut root_form = false;
    if str_eq(issuer.path(), "/") {
        let sb = serialization.as_bytes();
        let tb = text.as_bytes();
        let n = sb.len();
        if n >= 1 && sb[n - 1] == 0x2f && tb.len() == n - 1 {
            let head = &sb[0..n - 1];
            root_form = crate::text::slice_eq(head, tb);
        }
        proof {
            reveal_strlit("/");
            let extended = oidc.issuer@ + seq!['/'];
            vstd::utf8::encode_utf8_decode_utf8(oidc.issuer@);
            vstd::utf8::encode_utf8_decode_utf8(issuer@.serialization);
            vstd::utf8::encode_utf8_decode_utf8(extended);
            lemma_utf8_push_slash(oidc.issuer@);
            if root_form {
                assert(sb@ =~= utf8(extended));
            }
            if issuer@.serialization == extended {
                assert(sb@.subrange(0, n - 1) =~= tb@);
            }
        }
    }
    if text.as_bytes().len() > 2_048 || !str_eq(issuer.scheme(), "https")
        || issuer.host_str().is_none() || issuer.username().as_bytes().len() != 0
        || issuer.has_password() || issuer.has_query() || issuer.has_fragment() || (!str_eq(
        text,
        serialization,
    ) && !root_form) {
        return Err(
            ConfigError::invalid(
                "admin.web.oidc.issuer must be a canonical HTTPS URL without credentials, query, or fragment",
            ),
        );
    }
    if !bounded_label_valid(oidc.client_id.as_str(), 256) {
        return Err(ConfigError::invalid("admin.web.oidc.client_id is outside safe bounds"));
    }
    if !secret_ref_valid(oidc.client_secret.as_str()) {
        return Err(
            ConfigError::invalid("admin.web.oidc.client_secret has an invalid secret reference"),
        );
    }
    match &oidc.ca_bundle {
        Some(c) => {
            if !secret_ref_valid(c.as_str()) {
                return Err(
                    ConfigError::invalid(
                        "admin.web.oidc.ca_bundle has an invalid secret reference",
                    ),
                );
            }
        },
        None => {},
    }
    if !bounded_label_valid(oidc.groups_claim.as_str(), 128) {
        return Err(ConfigError::invalid("admin.web.oidc.groups_claim is outside safe bounds"));
    }
    let g = &oidc.groups;
    if g.viewer.len() > 64 || g.auditor.len() > 64 || g.operator.len() > 64 || g.admin.len() > 64
        || g.viewer.len() + g.auditor.len() + g.operator.len() + g.admin.len() > 256 {
        return Err(ConfigError::invalid("admin.web.oidc role group lists exceed safe bounds"));
    }
    let mut all: Vec<String> = Vec::new();
    append_clones(&mut all, &g.viewer);
    append_clones(&mut all, &g.auditor);
    append_clones(&mut all, &g.operator);
    append_clones(&mut all, &g.admin);
    let ghost groups = g.viewer@ + g.auditor@ + g.operator@ + g.admin@;
    assert(all@ =~= groups);
    let mut j: usize = 0;
    while j < all.len()
        invariant
            all@ == groups,
            groups == oidc.groups.viewer@ + oidc.groups.auditor@ + oidc.groups.operator@
                + oidc.groups.admin@,
            j <= all@.len(),
            forall|i: int| 0 <= i < j ==> bounded_label((#[trigger] all@[i])@, 256),
            forall|a: int, b: int|
                0 <= a < b < j ==> (#[trigger] all@[a])@ != (#[trigger] all@[b])@,
        decreases all@.len() - j,
    {
        let name = all[j].as_str();
        let mut fresh = true;
        let mut i: usize = 0;
        while i < j
            invariant
                j < all@.len(),
                i <= j,
                name@ == all@[j as int]@,
                fresh == forall|a: int| 0 <= a < i ==> (#[trigger] all@[a])@ != name@,
            decreases j - i,
        {
            if str_eq(all[i].as_str(), name) {
                fresh = false;
            }
            i += 1;
        }
        if !bounded_label_valid(name, 256) || !fresh {
            proof {
                if !fresh {
                    let a = choose|a: int| 0 <= a < j && (#[trigger] all@[a])@ == name@;
                    assert(groups[a]@ == groups[j as int]@);
                } else {
                    assert(!bounded_label(groups[j as int]@, 256));
                }

            }
            return Err(
                ConfigError::invalid(
                    "admin.web.oidc group names must be bounded, nonempty, and unique across roles",
                ),
            );
        }
        j += 1;
    }
    Ok(())
}

proof fn lemma_utf8_push_slash(s: Seq<char>)
    ensures
        utf8(s + seq!['/']) == utf8(s) + seq![0x2fu8],
{
    let slash = seq!['/'];
    assert(slash[0] as u32 == 47);
    assert(((47u32 & 0x7Fu32) as u8) == 0x2fu8) by (bit_vector);
    assert(vstd::utf8::encode_scalar(47) =~= seq![0x2fu8]);
    assert(slash.drop_first() =~= Seq::<char>::empty());
    assert(utf8(Seq::<char>::empty()) =~= Seq::<u8>::empty());
    assert(utf8(slash) =~= seq![0x2fu8]);
    lemma_utf8_concat(s, seq!['/']);
}

proof fn lemma_utf8_concat(a: Seq<char>, b: Seq<char>)
    ensures
        utf8(a + b) == utf8(a) + utf8(b),
    decreases a.len(),
{
    if a.len() > 0 {
        assert((a + b).drop_first() =~= a.drop_first() + b);
        lemma_utf8_concat(a.drop_first(), b);
        assert(utf8(a + b) =~= utf8(a) + utf8(b)) by {
            reveal_with_fuel(vstd::utf8::encode_utf8, 2);
            assert((a + b)[0] == a[0]);
        }
    } else {
        assert(a + b =~= b);
    }
}


/// Browser administration: a nonzero loopback bind, the exact matching
/// origin, and a sign-in policy whenever it is enabled.
pub open spec fn admin_web_ok(w: AdminWebConfig) -> bool {
    &&& w.bind.ip.spec_loopback()
    &&& w.bind.port != 0
    &&& w.origin@ == "http://localhost:"@ + decimal_text(w.bind.port as nat)
    &&& match w.oidc {
        None => !w.enabled,
        Some(o) => oidc_ok(o) && !(w.enabled && o.groups.admin@.len() == 0),
    }
}

/// Validates browser administration.
pub fn validate_admin_web(web: &AdminWebConfig) -> (r: Result<(), ConfigError>)
    ensures
        r is Ok <==> admin_web_ok(*web),
        match admin_web_error(*web) {
            Some(m) => r matches Err(ConfigError::Invalid(e)) && e@ == m,
            None => r is Ok,
        },
{
    if !web.bind.ip.is_loopback() || web.bind.port == 0 {
        return Err(ConfigError::invalid("admin.web.bind must use a nonzero loopback address"));
    }
    let port = decimal(web.bind.port as usize);
    let expected = join2("http://localhost:", port.as_str());
    if !str_eq(web.origin.as_str(), expected.as_str()) {
        return Err(
            ConfigError::Invalid(join2("admin.web.origin must be exactly ", expected.as_str())),
        );
    }
    match &web.oidc {
        None => {
            if web.enabled {
                return Err(
                    ConfigError::invalid(
                        "admin.web.oidc is required when browser administration is enabled",
                    ),
                );
            }
            Ok(())
        },
        Some(oidc) => {
            match validate_admin_oidc(oidc) {
                Ok(()) => {},
                Err(e) => {
                    return Err(e);
                },
            }
            if web.enabled && oidc.groups.admin.len() == 0 {
                return Err(
                    ConfigError::invalid("admin.web.oidc.groups.admin requires at least one group"),
                );
            }
            Ok(())
        },
    }
}

/// Administration settings: socket path, peer UIDs, audit key, resource
/// limits and browser administration.
pub open spec fn admin_ok(a: AdminConfig) -> bool {
    &&& match a.unix_socket {
        Some(s) => socket_path_ok(utf8(s@)),
        None => true,
    }
    &&& a.allowed_uids@.len() <= 64
    &&& no_duplicates(a.allowed_uids@)
    &&& match a.audit_key {
        Some(k) => secret_ref_ok(utf8(k@)),
        None => true,
    }
    &&& 1 <= a.max_body_bytes <= 1024 * 1024
    &&& 1 <= a.max_in_flight <= 256
    &&& 1 <= a.max_auth_in_flight <= 32
    &&& 1 <= a.request_timeout_secs <= 60
    &&& 1 <= a.requests_per_second <= 1_000
    &&& a.requests_per_second <= a.burst <= 5_000
    &&& admin_web_ok(a.web)
}

fn uids_unique(v: &Vec<u32>) -> (r: bool)
    ensures
        r == no_duplicates(v@),
{
    let mut j: usize = 0;
    while j < v.len()
        invariant
            j <= v@.len(),
            forall|a: int, b: int| 0 <= a < b < j ==> v@[a] != v@[b],
        decreases v@.len() - j,
    {
        let mut i: usize = 0;
        while i < j
            invariant
                j < v@.len(),
                i <= j,
                forall|a: int| 0 <= a < i ==> v@[a] != v@[j as int],
            decreases j - i,
        {
            if v[i] == v[j] {
                return false;
            }
            i += 1;
        }
        j += 1;
    }
    true
}

/// Validates administration settings.
pub fn validate_admin(admin: &AdminConfig) -> (r: Result<(), ConfigError>)
    ensures
        r is Ok <==> admin_ok(*admin),
        match admin_error(*admin) {
            Some(m) => r matches Err(ConfigError::Invalid(e)) && e@ == m,
            None => r is Ok,
        },
{
    match &admin.unix_socket {
        Some(socket) => {
            let b = socket.as_str().as_bytes();
            if b.len() == 0 || b.len() > 4_096 || bytes_have_control(b) || b[0] != 0x2f
                || path_has_parent(b) {
                return Err(
                    ConfigError::invalid(
                        "admin.unix_socket must be an absolute path without parent traversal",
                    ),
                );
            }
        },
        None => {},
    }
    if admin.allowed_uids.len() > 64 || !uids_unique(&admin.allowed_uids) {
        return Err(
            ConfigError::invalid("admin.allowed_uids must contain at most 64 unique values"),
        );
    }
    match &admin.audit_key {
        Some(reference) => {
            if !secret_ref_valid(reference.as_str()) {
                return Err(ConfigError::invalid("admin.audit_key has an invalid secret reference"));
            }
        },
        None => {},
    }
    if admin.max_body_bytes == 0 || admin.max_body_bytes > 1024 * 1024 || admin.max_in_flight == 0
        || admin.max_in_flight > 256 || admin.max_auth_in_flight == 0 || admin.max_auth_in_flight
        > 32 || admin.request_timeout_secs == 0 || admin.request_timeout_secs > 60
        || admin.requests_per_second == 0 || admin.requests_per_second > 1_000 || admin.burst
        < admin.requests_per_second || admin.burst > 5_000 {
        return Err(
            ConfigError::invalid("administrative resource limits are outside safe bounds"),
        );
    }
    validate_admin_web(&admin.web)
}


pub open spec fn opt_str(o: Option<&str>) -> Option<Seq<char>> {
    match o {
        Some(s) => Some(s@),
        None => None,
    }
}

/// A provider's transport template matches its upstream group: every static
/// endpoint uses the provider's scheme; HTTPS names an exact certificate
/// host and may name a CA bundle; other schemes set neither.
pub open spec fn template_ok(
    scheme: ProviderScheme,
    server_name: Option<Seq<char>>,
    ca_bundle: Option<Seq<char>>,
    group: UpstreamGroupConfig,
) -> bool {
    &&& forall|i: int|
        0 <= i < group.endpoints@.len() ==> (#[trigger] group.endpoints@[i]).url@.scheme
            == scheme.spec_as_str()
    &&& match scheme {
        ProviderScheme::Https => {
            &&& server_name is Some
            &&& !starts_with(utf8(server_name->0), seq![0x2au8, 0x2eu8])
            &&& cert_host_ok(utf8(server_name->0))
            &&& match ca_bundle {
                Some(c) => secret_ref_ok(utf8(c)),
                None => true,
            }
        },
        _ => server_name is None && ca_bundle is None,
    }
}

/// The message of the first transport-template rule broken.
pub open spec fn template_error(
    id: Seq<char>,
    scheme: ProviderScheme,
    server_name: Option<Seq<char>>,
    ca_bundle: Option<Seq<char>>,
    group: UpstreamGroupConfig,
) -> Option<Seq<char>> {
    if exists|i: int|
        0 <= i < group.endpoints@.len() && (#[trigger] group.endpoints@[i]).url@.scheme
            != scheme.spec_as_str() {
        Some("provider "@ + (id + " transport differs from upstream group "@ + group.id@))
    } else {
        match scheme {
            ProviderScheme::Https => {
                if server_name is None || starts_with(
                    utf8(server_name->0),
                    seq![0x2au8, 0x2eu8],
                ) {
                    Some("HTTPS provider "@ + id + " requires an exact server_name"@)
                } else if !cert_host_ok(utf8(server_name->0)) {
                    Some(cert_host_message(server_name->0))
                } else if ca_bundle is Some && !secret_ref_ok(utf8(ca_bundle->0)) {
                    Some("provider "@ + id + " has an invalid CA bundle reference"@)
                } else {
                    None
                }
            },
            _ => if server_name is Some || ca_bundle is Some {
                Some("non-HTTPS provider "@ + id + " cannot set TLS policy"@)
            } else {
                None
            },
        }
    }
}

/// The message of the first kind-specific rule that provider `p` breaks.
pub open spec fn provider_kind_error(p: ProviderConfig, g: UpstreamGroupConfig) -> Option<Seq<char>> {
    match p {
        ProviderConfig::File(f) => {
            if !file_path_ok(utf8(f.path@)) {
                Some(
                    "provider "@ + f.id@
                        + " path must be absolute, bounded, and contain no expansion or traversal"@,
                )
            } else if !(50 <= f.debounce_millis <= 5_000 && 1 <= f.max_endpoints <= 256) {
                Some("provider "@ + f.id@ + " debounce or endpoint bound is invalid"@)
            } else {
                template_error(f.id@, f.scheme, opt_text(f.server_name), opt_text(f.ca_bundle), g)
            }
        },
        ProviderConfig::Dns(d) => {
            if !upstream_host_ok(utf8(d.hostname@)) {
                Some(
                    "provider "@ + (d.id@ + " has invalid DNS hostname: "@ + upstream_host_reason(
                        utf8(d.hostname@),
                    )),
                )
            } else if !(std_ip_from_str(d.hostname@) is None && d.port != 0 && 1 <= d.weight
                <= 10_000 && 1 <= d.max_answers <= 64) {
                Some("provider "@ + d.id@ + " DNS port, weight, or answer bound is invalid"@)
            } else {
                template_error(d.id@, d.scheme, opt_text(d.server_name), opt_text(d.ca_bundle), g)
            }
        },
    }
}

/// The message of the first rule that provider `i` breaks.
pub open spec fn provider_error(ps: Seq<ProviderConfig>, gs: Seq<UpstreamGroupConfig>, i: int) -> Option<
    Seq<char>,
> {
    let p = ps[i];
    if !id_ok(utf8(p.spec_id())) {
        Some(id_message(p.spec_id()))
    } else if first_provider_clash(ps, i, 0) is Some {
        first_provider_clash(ps, i, 0)
    } else if find_group(gs, p.spec_upstream_group()) is None {
        Some(
            "providers["@ + decimal_text(i as nat) + "] references unknown upstream group "@
                + p.spec_upstream_group(),
        )
    } else if !(1 <= p.spec_refresh_secs() <= 300 && p.spec_refresh_secs()
        <= p.spec_stale_after_secs() <= 86_400) {
        Some("provider "@ + p.spec_id() + " refresh/stale durations are outside safe bounds"@)
    } else {
        provider_kind_error(p, find_group(gs, p.spec_upstream_group())->0)
    }
}

/// The first earlier provider, from position `j` on, that shares provider
/// `i`'s ID or upstream group, as its message.
pub open spec fn first_provider_clash(ps: Seq<ProviderConfig>, i: int, j: int) -> Option<Seq<char>>
    decreases i - j,
{
    if 0 <= j < i {
        if ps[j].spec_id() == ps[i].spec_id() {
            Some("duplicate provider id "@ + ps[i].spec_id())
        } else if ps[j].spec_upstream_group() == ps[i].spec_upstream_group() {
            Some(
                "providers assign upstream group "@ + ps[i].spec_upstream_group()
                    + " more than once"@,
            )
        } else {
            first_provider_clash(ps, i, j + 1)
        }
    } else {
        None
    }
}

/// The first provider error from position `i` on.
pub open spec fn providers_error_from(ps: Seq<ProviderConfig>, gs: Seq<UpstreamGroupConfig>, i: int) -> Option<
    Seq<char>,
>
    decreases ps.len() - i,
{
    if 0 <= i < ps.len() {
        match provider_error(ps, gs, i) {
            Some(m) => Some(m),
            None => providers_error_from(ps, gs, i + 1),
        }
    } else {
        None
    }
}

/// The message of the first provider rule broken.
pub open spec fn providers_error(c: Config) -> Option<Seq<char>> {
    if c.providers@.len() > MAX_PROVIDERS {
        Some("providers exceeds 64 entries"@)
    } else {
        providers_error_from(c.providers@, c.upstream_groups@, 0)
    }
}

/// Validates a provider's transport template against its upstream group.
#[verifier::loop_isolation(false)]
pub fn validate_provider_template(
    id: &str,
    scheme: ProviderScheme,
    server_name: Option<&str>,
    ca_bundle: Option<&str>,
    group: &UpstreamGroupConfig,
) -> (r: Result<(), ConfigError>)
    ensures
        r is Ok <==> template_ok(scheme, opt_str(server_name), opt_str(ca_bundle), *group),
        match template_error(id@, scheme, opt_str(server_name), opt_str(ca_bundle), *group) {
            Some(m) => r matches Err(ConfigError::Invalid(e)) && e@ == m,
            None => r is Ok,
        },
{
    let expected = scheme.as_str();
    let mut i: usize = 0;
    while i < group.endpoints.len()
        invariant
            expected@ == scheme.spec_as_str(),
            i <= group.endpoints@.len(),
            forall|k: int|
                0 <= k < i ==> (#[trigger] group.endpoints@[k]).url@.scheme
                    == scheme.spec_as_str(),
        decreases group.endpoints@.len() - i,
    {
        if !str_eq(group.endpoints[i].url.scheme(), expected) {
            let what = join3(id, " transport differs from upstream group ", group.id.as_str());
            return Err(ConfigError::Invalid(join2("provider ", what.as_str())));
        }
        i += 1;
    }
    match scheme {
        ProviderScheme::Https => {
            let wild: [u8; 2] = [0x2a, 0x2e];
            assert(wild@ =~= seq![0x2au8, 0x2eu8]);
            let name = match server_name {
                Some(n) => {
                    if slice_starts_with(n.as_bytes(), wild.as_slice()) {
                        return Err(
                            ConfigError::Invalid(
                                join3("HTTPS provider ", id, " requires an exact server_name"),
                            ),
                        );
                    }
                    n
                },
                None => {
                    return Err(
                        ConfigError::Invalid(
                            join3("HTTPS provider ", id, " requires an exact server_name"),
                        ),
                    );
                },
            };
            match valid_certificate_host(name) {
                Ok(()) => {},
                Err(e) => {
                    return Err(e);
                },
            }
            match ca_bundle {
                Some(c) => {
                    if !secret_ref_valid(c) {
                        return Err(
                            ConfigError::Invalid(
                                join3("provider ", id, " has an invalid CA bundle reference"),
                            ),
                        );
                    }
                },
                None => {},
            }
            Ok(())
        },
        _ => {
            if server_name.is_some() || ca_bundle.is_some() {
                return Err(
                    ConfigError::Invalid(join3("non-HTTPS provider ", id, " cannot set TLS policy")),
                );
            }
            Ok(())
        },
    }
}

/// The last upstream group named `name`, as a map built from the list keeps.
pub open spec fn find_group(gs: Seq<UpstreamGroupConfig>, name: Seq<char>) -> Option<
    UpstreamGroupConfig,
>
    decreases gs.len(),
{
    if gs.len() == 0 {
        None
    } else if gs.last().id@ == name {
        Some(gs.last())
    } else {
        find_group(gs.drop_last(), name)
    }
}

fn group_named<'a>(gs: &'a Vec<UpstreamGroupConfig>, name: &str) -> (r: Option<
    &'a UpstreamGroupConfig,
>)
    ensures
        r is Some <==> find_group(gs@, name@) is Some,
        r matches Some(g) ==> *g == find_group(gs@, name@)->0,
{
    let mut i: usize = gs.len();
    assert(gs@.take(i as int) =~= gs@);
    while i > 0
        invariant
            i <= gs@.len(),
            find_group(gs@, name@) == find_group(gs@.take(i as int), name@),
        decreases i,
    {
        assert(gs@.take(i as int).drop_last() =~= gs@.take(i - 1));
        if str_eq(gs[i - 1].id.as_str(), name) {
            return Some(&gs[i - 1]);
        }
        i -= 1;
    }
    None
}

/// An absolute, bounded provider file path with a file name and without
/// expansion characters, control bytes or `..`.
pub open spec fn file_path_ok(b: Seq<u8>) -> bool {
    &&& 1 <= b.len() <= 4_096
    &&& b[0] == 0x2f
    &&& has_named_segment(b)
    &&& !has_byte(b, 0x24)
    &&& !has_byte(b, 0x7e)
    &&& !has_control(b)
    &&& !has_parent_segment(b)
}

/// Kind-specific provider rules, checked against the provider's group.
pub open spec fn provider_kind_ok(p: ProviderConfig, g: UpstreamGroupConfig) -> bool {
    match p {
        ProviderConfig::File(f) => {
            &&& file_path_ok(utf8(f.path@))
            &&& 50 <= f.debounce_millis <= 5_000
            &&& 1 <= f.max_endpoints <= 256
            &&& template_ok(f.scheme, opt_text(f.server_name), opt_text(f.ca_bundle), g)
        },
        ProviderConfig::Dns(d) => {
            &&& upstream_host_ok(utf8(d.hostname@))
            &&& std_ip_from_str(d.hostname@) is None
            &&& d.port != 0
            &&& 1 <= d.weight <= 10_000
            &&& 1 <= d.max_answers <= 64
            &&& template_ok(d.scheme, opt_text(d.server_name), opt_text(d.ca_bundle), g)
        },
    }
}

/// Provider `i` has a valid, unique ID, owns an existing upstream group no
/// earlier provider owns, and has bounded refresh and staleness windows.
pub open spec fn provider_at_ok(
    ps: Seq<ProviderConfig>,
    gs: Seq<UpstreamGroupConfig>,
    i: int,
) -> bool {
    let p = ps[i];
    &&& id_ok(utf8(p.spec_id()))
    &&& forall|j: int| 0 <= j < i ==> (#[trigger] ps[j]).spec_id() != p.spec_id()
    &&& forall|j: int| 0 <= j < i ==> (#[trigger] ps[j]).spec_upstream_group() != p.spec_upstream_group()
    &&& find_group(gs, p.spec_upstream_group()) is Some
    &&& 1 <= p.spec_refresh_secs() <= 300
    &&& p.spec_refresh_secs() <= p.spec_stale_after_secs() <= 86_400
    &&& provider_kind_ok(p, find_group(gs, p.spec_upstream_group())->0)
}

pub open spec fn providers_ok(c: Config) -> bool {
    &&& c.providers@.len() <= MAX_PROVIDERS
    &&& forall|i: int|
        0 <= i < c.providers@.len() ==> #[trigger] provider_at_ok(
            c.providers@,
            c.upstream_groups@,
            i,
        )
}

fn opt_as_str(o: &Option<String>) -> (r: Option<&str>)
    ensures
        opt_str(r) == opt_text(*o),
{
    match o {
        Some(s) => Some(s.as_str()),
        None => None,
    }
}

fn check_provider_kind(p: &ProviderConfig, group: &UpstreamGroupConfig) -> (r: Result<
    (),
    ConfigError,
>)
    ensures
        r is Ok <==> provider_kind_ok(*p, *group),
        match provider_kind_error(*p, *group) {
            Some(m) => r matches Err(ConfigError::Invalid(e)) && e@ == m,
            None => r is Ok,
        },
{
    match p {
        ProviderConfig::File(f) => {
            let b = f.path.as_str().as_bytes();
            if b.len() > 4_096 || b.len() == 0 || b[0] != 0x2f || !path_has_name(b)
                || slice_has_byte(b, 0x24) || slice_has_byte(b, 0x7e) || bytes_have_control(b)
                || path_has_parent(b) {
                return Err(
                    ConfigError::Invalid(
                        join3(
                            "provider ",
                            f.id.as_str(),
                            " path must be absolute, bounded, and contain no expansion or traversal",
                        ),
                    ),
                );
            }
            if f.debounce_millis < 50 || f.debounce_millis > 5_000 || f.max_endpoints == 0
                || f.max_endpoints > 256 {
                return Err(
                    ConfigError::Invalid(
                        join3("provider ", f.id.as_str(), " debounce or endpoint bound is invalid"),
                    ),
                );
            }
            validate_provider_template(
                f.id.as_str(),
                f.scheme,
                opt_as_str(&f.server_name),
                opt_as_str(&f.ca_bundle),
                group,
            )
        },
        ProviderConfig::Dns(d) => {
            match valid_upstream_host(d.hostname.as_str()) {
                Ok(()) => {},
                Err(reason) => {
                    let what = join3(d.id.as_str(), " has invalid DNS hostname: ", reason);
                    return Err(ConfigError::Invalid(join2("provider ", what.as_str())));
                },
            }
            if IpAddress::parse(d.hostname.as_str()).is_some() || d.port == 0 || d.weight == 0
                || d.weight > 10_000 || d.max_answers == 0 || d.max_answers > 64 {
                return Err(
                    ConfigError::Invalid(
                        join3(
                            "provider ",
                            d.id.as_str(),
                            " DNS port, weight, or answer bound is invalid",
                        ),
                    ),
                );
            }
            validate_provider_template(
                d.id.as_str(),
                d.scheme,
                opt_as_str(&d.server_name),
                opt_as_str(&d.ca_bundle),
                group,
            )
        },
    }
}

/// Validates every service-discovery provider against the upstream groups.
#[verifier::loop_isolation(false)]
pub fn validate_providers(config: &Config) -> (r: Result<(), ConfigError>)
    ensures
        r is Ok <==> providers_ok(*config),
        match providers_error(*config) {
            Some(m) => r matches Err(ConfigError::Invalid(e)) && e@ == m,
            None => r is Ok,
        },
{
    if config.providers.len() > MAX_PROVIDERS {
        return Err(ConfigError::invalid("providers exceeds 64 entries"));
    }
    let ps = &config.providers;
    let mut index: usize = 0;
    while index < ps.len()
        invariant
            ps@ == config.providers@,
            ps@.len() <= MAX_PROVIDERS,
            index <= ps@.len(),
            forall|i: int|
                0 <= i < index ==> #[trigger] provider_at_ok(ps@, config.upstream_groups@, i),
            providers_error_from(ps@, config.upstream_groups@, 0) == providers_error_from(
                ps@,
                config.upstream_groups@,
                index as int,
            ),
        decreases ps@.len() - index,
    {
        let p = &ps[index];
        match valid_id(p.id()) {
            Ok(()) => {},
            Err(e) => {
                assert(!provider_at_ok(ps@, config.upstream_groups@, index as int));
                return Err(e);
            },
        }
        let mut j: usize = 0;
        while j < index
            invariant
                ps@ == config.providers@,
                index < ps@.len(),
                j <= index,
                *p == ps@[index as int],
                forall|k: int|
                    0 <= k < j ==> (#[trigger] ps@[k]).spec_id() != p.spec_id()
                        && ps@[k].spec_upstream_group() != p.spec_upstream_group(),
                first_provider_clash(ps@, index as int, 0) == first_provider_clash(
                    ps@,
                    index as int,
                    j as int,
                ),
            decreases index - j,
        {
            if str_eq(ps[j].id(), p.id()) {
                assert(ps@[j as int].spec_id() == p.spec_id());
                assert(!provider_at_ok(ps@, config.upstream_groups@, index as int));
                return Err(ConfigError::Invalid(join2("duplicate provider id ", p.id())));
            }
            if str_eq(ps[j].upstream_group(), p.upstream_group()) {
                assert(ps@[j as int].spec_upstream_group() == p.spec_upstream_group());
                assert(!provider_at_ok(ps@, config.upstream_groups@, index as int));
                return Err(
                    ConfigError::Invalid(
                        join3(
                            "providers assign upstream group ",
                            p.upstream_group(),
                            " more than once",
                        ),
                    ),
                );
            }
            j += 1;
        }
        let group = match group_named(&config.upstream_groups, p.upstream_group()) {
            Some(g) => g,
            None => {
                assert(!provider_at_ok(ps@, config.upstream_groups@, index as int));
                let idx = decimal(index);
                let head = join3("providers[", idx.as_str(), "] references unknown upstream group ");
                return Err(ConfigError::Invalid(join2(head.as_str(), p.upstream_group())));
            },
        };
        if p.refresh_secs() == 0 || p.refresh_secs() > 300 || p.stale_after_secs()
            < p.refresh_secs() || p.stale_after_secs() > 86_400 {
            assert(!provider_at_ok(ps@, config.upstream_groups@, index as int));
            return Err(
                ConfigError::Invalid(
                    join3(
                        "provider ",
                        p.id(),
                        " refresh/stale durations are outside safe bounds",
                    ),
                ),
            );
        }
        match check_provider_kind(p, group) {
            Ok(()) => {},
            Err(e) => {
                assert(!provider_at_ok(ps@, config.upstream_groups@, index as int));
                return Err(e);
            },
        }
        index += 1;
    }
    Ok(())
}


/// Maximum worst-case metric series.
pub const MAX_METRIC_SERIES: usize = 100_000;

/// `x` clamped to the largest `usize`.
pub open spec fn sat(x: int) -> int {
    if x > usize::MAX {
        usize::MAX as int
    } else {
        x
    }
}

/// Saturating sum of the listener counts of `routes`, starting from `init`.
pub open spec fn route_listener_pairs(routes: Seq<RouteConfig>, init: int) -> int
    decreases routes.len(),
{
    if routes.len() == 0 {
        init
    } else {
        sat(route_listener_pairs(routes.drop_last(), init) + routes.last().listeners@.len())
    }
}

/// Saturating sum of the endpoint counts of `groups`.
pub open spec fn endpoint_total(groups: Seq<UpstreamGroupConfig>) -> int
    decreases groups.len(),
{
    if groups.len() == 0 {
        0
    } else {
        sat(endpoint_total(groups.drop_last()) + groups.last().endpoints@.len())
    }
}

/// Number of rate-limit middlewares among `entries`.
pub open spec fn rate_limiter_count(entries: Seq<(String, MiddlewareConfig)>) -> int
    decreases entries.len(),
{
    if entries.len() == 0 {
        0
    } else {
        rate_limiter_count(entries.drop_last()) + if entries.last().1 is RateLimit {
            1int
        } else {
            0int
        }
    }
}

/// Worst-case OpenMetrics series, every step saturating at the largest `usize`.
pub open spec fn metric_series(c: Config) -> int {
    if !c.observability.metrics {
        0
    } else {
        let pairs = route_listener_pairs(c.routes@, c.listeners@.len() as int);
        let endpoints = endpoint_total(c.upstream_groups@);
        let limiters = rate_limiter_count(c.middlewares.spec_entries());
        let certificates = sat(c.certificates@.len() as int + c.acme.certificates@.len() as int);
        sat(
            sat(
                sat(
                    sat(
                        sat(sat(sat(pairs * 170) + sat(endpoints * 17)) + sat(limiters * 3))
                            + sat(c.listeners@.len() as int * 6),
                    ) + sat(certificates * 4),
                ) + sat(c.providers@.len() as int * 4),
            ) + 14,
        )
    }
}

fn sat_mul(x: usize, k: usize) -> (r: usize)
    ensures
        r == sat(x * k),
{
    match x.checked_mul(k) {
        Some(v) => v,
        None => usize::MAX,
    }
}

proof fn lemma_sat_fold_bounds(routes: Seq<RouteConfig>, init: int)
    requires
        0 <= init <= usize::MAX,
    ensures
        0 <= route_listener_pairs(routes, init) <= usize::MAX,
    decreases routes.len(),
{
    if routes.len() > 0 {
        lemma_sat_fold_bounds(routes.drop_last(), init);
    }
}

proof fn lemma_endpoint_total_bounds(groups: Seq<UpstreamGroupConfig>)
    ensures
        0 <= endpoint_total(groups) <= usize::MAX,
    decreases groups.len(),
{
    if groups.len() > 0 {
        lemma_endpoint_total_bounds(groups.drop_last());
    }
}

proof fn lemma_rate_limiter_count_bounds(entries: Seq<(String, MiddlewareConfig)>)
    ensures
        0 <= rate_limiter_count(entries) <= entries.len(),
    decreases entries.len(),
{
    if entries.len() > 0 {
        lemma_rate_limiter_count_bounds(entries.drop_last());
    }
}

/// Calculate the worst-case OpenMetrics series count for the current families.
pub fn estimated_metric_series(config: &Config) -> (r: usize)
    ensures
        r == metric_series(*config),
{
    if !config.observability.metrics {
        return 0;
    }
    let mut pairs: usize = config.listeners.len();
    let mut i: usize = 0;
    while i < config.routes.len()
        invariant
            i <= config.routes@.len(),
            pairs == route_listener_pairs(
                config.routes@.take(i as int),
                config.listeners@.len() as int,
            ),
        decreases config.routes@.len() - i,
    {
        assert(config.routes@.take(i + 1).drop_last() =~= config.routes@.take(i as int));
        pairs = pairs.saturating_add(config.routes[i].listeners.len());
        i += 1;
    }
    assert(config.routes@.take(config.routes@.len() as int) =~= config.routes@);
    let mut endpoints: usize = 0;
    let mut i: usize = 0;
    while i < config.upstream_groups.len()
        invariant
            i <= config.upstream_groups@.len(),
            endpoints == endpoint_total(config.upstream_groups@.take(i as int)),
        decreases config.upstream_groups@.len() - i,
    {
        assert(config.upstream_groups@.take(i + 1).drop_last() =~= config.upstream_groups@.take(
            i as int,
        ));
        endpoints = endpoints.saturating_add(config.upstream_groups[i].endpoints.len());
        i += 1;
    }
    assert(config.upstream_groups@.take(config.upstream_groups@.len() as int)
        =~= config.upstream_groups@);
    let ghost entries = config.middlewares.spec_entries();
    let mut limiters: usize = 0;
    let mut i: usize = 0;
    while i < config.middlewares.len()
        invariant
            entries == config.middlewares.spec_entries(),
            i <= entries.len(),
            limiters == rate_limiter_count(entries.take(i as int)),
        decreases entries.len() - i,
    {
        assert(entries.take(i + 1).drop_last() =~= entries.take(i as int));
        proof {
            lemma_rate_limiter_count_bounds(entries.take(i as int));
        }
        let (_, m) = config.middlewares.entry(i);
        match m {
            MiddlewareConfig::RateLimit { .. } => {
                limiters = limiters + 1;
            },
            _ => {},
        }
        i += 1;
    }
    assert(entries.take(entries.len() as int) =~= entries);
    let certificates = config.certificates.len().saturating_add(config.acme.certificates.len());
    sat_mul(pairs, 170).saturating_add(sat_mul(endpoints, 17)).saturating_add(
        sat_mul(limiters, 3),
    ).saturating_add(sat_mul(config.listeners.len(), 6)).saturating_add(
        sat_mul(certificates, 4),
    ).saturating_add(sat_mul(config.providers.len(), 4)).saturating_add(14)
}

/// An OTLP endpoint: `http(s)` with a host and no credentials, query or
/// fragment; plain HTTP only to a loopback IP literal; bounded sampling,
/// queue, batch and timeout.
pub open spec fn otlp_ok(o: OtlpTraceConfig) -> bool {
    let u = o.endpoint@;
    &&& (u.scheme == "http"@ || u.scheme == "https"@)
    &&& u.host is Some
    &&& u.username.len() == 0
    &&& !u.has_password
    &&& u.query is None
    &&& u.fragment is None
    &&& (u.scheme == "http"@ ==> match std_ip_from_str(u.host->0) {
        Some(ip) => ip.spec_loopback(),
        None => false,
    })
    &&& 1 <= o.sample_per_million <= 1_000_000
    &&& 1 <= o.max_queue_size <= 16_384
    &&& 1 <= o.max_export_batch_size <= o.max_queue_size
    &&& 1 <= o.export_timeout_secs <= 30
}

pub open spec fn observability_ok(c: Config) -> bool {
    &&& c.observability.access_log_sample_per_million <= 1_000_000
    &&& metric_series(c) <= MAX_METRIC_SERIES
    &&& match c.observability.otlp_traces {
        Some(o) => otlp_ok(o),
        None => true,
    }
}

/// The message of the first telemetry rule broken.
pub open spec fn observability_error(c: Config) -> Option<Seq<char>> {
    let o = c.observability;
    if o.access_log_sample_per_million > 1_000_000 {
        Some("observability.access_log_sample_per_million exceeds 1000000"@)
    } else if metric_series(c) > MAX_METRIC_SERIES {
        Some(
            "observability metrics could create "@ + decimal_text(metric_series(c) as nat)
                + " series, exceeding 100000"@
                + "; reduce route/listener combinations or disable metrics"@,
        )
    } else {
        match o.otlp_traces {
            None => None,
            Some(t) => {
                let u = t.endpoint@;
                if !((u.scheme == "http"@ || u.scheme == "https"@) && u.host is Some
                    && u.username.len() == 0 && !u.has_password && u.query is None && u.fragment
                    is None) {
                    Some(
                        "observability.otlp_traces.endpoint must be an HTTP(S) URL without credentials, query, or fragment"@,
                    )
                } else if u.scheme == "http"@ && !(match std_ip_from_str(u.host->0) {
                    Some(ip) => ip.spec_loopback(),
                    None => false,
                }) {
                    Some(
                        "observability.otlp_traces.endpoint requires HTTPS unless it uses a loopback IP"@,
                    )
                } else if !(1 <= t.sample_per_million <= 1_000_000 && 1 <= t.max_queue_size
                    <= 16_384 && 1 <= t.max_export_batch_size <= t.max_queue_size && 1
                    <= t.export_timeout_secs <= 30) {
                    Some("observability.otlp_traces limits are outside safe bounds"@)
                } else {
                    None
                }
            },
        }
    }
}

/// Validates telemetry settings and the metric-series bound.
pub fn validate_observability(config: &Config) -> (r: Result<(), ConfigError>)
    ensures
        r is Ok <==> observability_ok(*config),
        match observability_error(*config) {
            Some(m) => r matches Err(ConfigError::Invalid(e)) && e@ == m,
            None => r is Ok,
        },
{
    let observability = &config.observability;
    if observability.access_log_sample_per_million > 1_000_000 {
        return Err(
            ConfigError::invalid("observability.access_log_sample_per_million exceeds 1000000"),
        );
    }
    let estimated = estimated_metric_series(config);
    if estimated > MAX_METRIC_SERIES {
        let n = decimal(estimated);
        let head = join3("observability metrics could create ", n.as_str(), " series, exceeding 100000");
        return Err(
            ConfigError::Invalid(
                join2(
                    head.as_str(),
                    "; reduce route/listener combinations or disable metrics",
                ),
            ),
        );
    }
    let otlp = match &observability.otlp_traces {
        Some(o) => o,
        None => {
            return Ok(());
        },
    };
    let endpoint = &otlp.endpoint;
    let is_http = str_eq(endpoint.scheme(), "http");
    if !(is_http || str_eq(endpoint.scheme(), "https")) || endpoint.host_str().is_none()
        || endpoint.username().as_bytes().len() != 0 || endpoint.has_password()
        || endpoint.has_query() || endpoint.has_fragment() {
        return Err(
            ConfigError::invalid(
                "observability.otlp_traces.endpoint must be an HTTP(S) URL without credentials, query, or fragment",
            ),
        );
    }
    if is_http {
        let loopback = match endpoint.host_str() {
            Some(host) => match IpAddress::parse(host) {
                Some(ip) => ip.is_loopback(),
                None => false,
            },
            None => false,
        };
        if !loopback {
            return Err(
                ConfigError::invalid(
                    "observability.otlp_traces.endpoint requires HTTPS unless it uses a loopback IP",
                ),
            );
        }
    }
    if otlp.sample_per_million == 0 || otlp.sample_per_million > 1_000_000 || otlp.max_queue_size
        == 0 || otlp.max_queue_size > 16_384 || otlp.max_export_batch_size == 0
        || otlp.max_export_batch_size > otlp.max_queue_size || otlp.export_timeout_secs == 0
        || otlp.export_timeout_secs > 30 {
        return Err(
            ConfigError::invalid("observability.otlp_traces limits are outside safe bounds"),
        );
    }
    Ok(())
}

} // verus!
