//! URLs, request targets, methods and header names, as the `url` and `http`
//! crates parse them.

use vstd::prelude::*;
use crate::text::{utf8, is_alnum, is_upper};

verus! {

/// The parts of an absolute URL that the validators read.
pub struct WebUrlView {
    pub serialization: Seq<char>,
    pub scheme: Seq<char>,
    pub username: Seq<char>,
    pub has_password: bool,
    pub host: Option<Seq<char>>,
    pub port: Option<u16>,
    pub path: Seq<char>,
    pub query: Option<Seq<char>>,
    pub fragment: Option<Seq<char>>,
    pub origin: Seq<char>,
}

/// An absolute URL as `url::Url` parses it.
#[derive(Clone, Debug)]
pub struct WebUrl {
    serialization: String,
    scheme: String,
    username: String,
    has_password: bool,
    host: Option<String>,
    port: Option<u16>,
    path: String,
    query: Option<String>,
    fragment: Option<String>,
    origin: String,
}

pub open spec fn opt_view(o: Option<String>) -> Option<Seq<char>> {
    match o {
        Some(s) => Some(s@),
        None => None,
    }
}

impl View for WebUrl {
    type V = WebUrlView;

    closed spec fn view(&self) -> WebUrlView {
        WebUrlView {
            serialization: self.serialization@,
            scheme: self.scheme@,
            username: self.username@,
            has_password: self.has_password,
            host: opt_view(self.host),
            port: self.port,
            path: self.path@,
            query: opt_view(self.query),
            fragment: opt_view(self.fragment),
            origin: self.origin@,
        }
    }
}

/// What `url::Url::parse` gives for a text.
pub uninterp spec fn url_from_str(text: Seq<char>) -> Option<WebUrlView>;

/// Calls `url::Url::parse` and copies out its serialization, scheme,
/// credentials, host, port, path, query, fragment and ASCII origin. The
/// result is named by `url_from_str`; nothing more is claimed of it.
#[verifier::external_body]
fn url_parse(text: &str) -> (r: Option<WebUrl>)
    ensures
        r is Some <==> url_from_str(text@) is Some,
        r matches Some(u) ==> u@ == url_from_str(text@)->0,
{
    match url::Url::parse(text) {
        Ok(u) => Some(WebUrl {
            serialization: u.as_str().to_string(), scheme: u.scheme().to_string(),
            username: u.username().to_string(), has_password: u.password().is_some(),
            host: u.host_str().map(|h| h.to_string()), port: u.port(),
            path: u.path().to_string(), query: u.query().map(|q| q.to_string()),
            fragment: u.fragment().map(|f| f.to_string()),
            origin: u.origin().ascii_serialization(),
        }),
        Err(_) => None,
    }
}

fn same_opt_string(o: &Option<String>) -> (r: Option<String>)
    ensures
        r == *o,
{
    match o {
        Some(s) => Some(s.clone()),
        None => None,
    }
}

impl WebUrl {
    /// An equal copy of this URL.
    pub fn copy(&self) -> (r: WebUrl)
        ensures
            r == *self,
    {
        WebUrl {
            serialization: self.serialization.clone(),
            scheme: self.scheme.clone(),
            username: self.username.clone(),
            has_password: self.has_password,
            host: same_opt_string(&self.host),
            port: self.port,
            path: self.path.clone(),
            query: same_opt_string(&self.query),
            fragment: same_opt_string(&self.fragment),
            origin: self.origin.clone(),
        }
    }

    /// Parses an absolute URL.
    pub fn parse(text: &str) -> (r: Option<WebUrl>)
        ensures
            r is Some <==> url_from_str(text@) is Some,
            r matches Some(u) ==> u@ == url_from_str(text@)->0,
    {
        url_parse(text)
    }

    pub fn as_str(&self) -> (r: &str)
        ensures
            r@ == self@.serialization,
    {
        self.serialization.as_str()
    }

    pub fn scheme(&self) -> (r: &str)
        ensures
            r@ == self@.scheme,
    {
        self.scheme.as_str()
    }

    pub fn username(&self) -> (r: &str)
        ensures
            r@ == self@.username,
    {
        self.username.as_str()
    }

    pub fn has_password(&self) -> (r: bool)
        ensures
            r == self@.has_password,
    {
        self.has_password
    }

    pub fn host_str(&self) -> (r: Option<&str>)
        ensures
            r is Some <==> self@.host is Some,
            r matches Some(h) ==> h@ == self@.host->0,
    {
        match &self.host {
            Some(h) => Some(h.as_str()),
            None => None,
        }
    }

    pub fn port(&self) -> (r: Option<u16>)
        ensures
            r == self@.port,
    {
        self.port
    }

    pub fn path(&self) -> (r: &str)
        ensures
            r@ == self@.path,
    {
        self.path.as_str()
    }

    pub fn has_query(&self) -> (r: bool)
        ensures
            r == self@.query is Some,
    {
        self.query.is_some()
    }

    pub fn has_fragment(&self) -> (r: bool)
        ensures
            r == self@.fragment is Some,
    {
        self.fragment.is_some()
    }

    pub fn origin_ascii(&self) -> (r: &str)
        ensures
            r@ == self@.origin,
    {
        self.origin.as_str()
    }
}

/// The parts of a request target that the validators read.
pub struct UriView {
    pub path: Seq<char>,
    pub has_scheme: bool,
    pub has_authority: bool,
    pub has_query: bool,
}

/// What `str::parse::<http::Uri>` gives for a text.
pub uninterp spec fn uri_from_str(text: Seq<char>) -> Option<UriView>;

/// Calls `str::parse::<http::Uri>` and copies out the path and whether a
/// scheme, an authority and a query are present. The result is named by
/// `uri_from_str`; nothing more is claimed of it.
#[verifier::external_body]
fn uri_parse(text: &str) -> (r: Option<(String, bool, bool, bool)>)
    ensures
        r is Some <==> uri_from_str(text@) is Some,
        r matches Some(t) ==> t.0@ == uri_from_str(text@)->0.path && t.1 == uri_from_str(
            text@,
        )->0.has_scheme && t.2 == uri_from_str(text@)->0.has_authority && t.3 == uri_from_str(
            text@,
        )->0.has_query,
{
    match text.parse::<http::Uri>() {
        Ok(u) => Some(
            (u.path().to_string(), u.scheme().is_some(), u.authority().is_some(), u.query().is_some()),
        ),
        Err(_) => None,
    }
}

/// Parses a request target: `(path, has scheme, has authority, has query)`.
pub fn parse_uri(text: &str) -> (r: Option<(String, bool, bool, bool)>)
    ensures
        r is Some <==> uri_from_str(text@) is Some,
        r matches Some(t) ==> t.0@ == uri_from_str(text@)->0.path && t.1 == uri_from_str(
            text@,
        )->0.has_scheme && t.2 == uri_from_str(text@)->0.has_authority && t.3 == uri_from_str(
            text@,
        )->0.has_query,
{
    uri_parse(text)
}

/// RFC 9110 token characters.
pub open spec fn tchar(b: u8) -> bool {
    is_alnum(b) || b == 0x21 || b == 0x23 || b == 0x24 || b == 0x25 || b == 0x26 || b == 0x27
        || b == 0x2a || b == 0x2b || b == 0x2d || b == 0x2e || b == 0x5e || b == 0x5f || b
        == 0x60 || b == 0x7c || b == 0x7e
}

pub open spec fn token_ok(b: Seq<u8>) -> bool {
    b.len() >= 1 && forall|i: int| 0 <= i < b.len() ==> tchar(#[trigger] b[i])
}

/// Bytes that `http::HeaderValue` accepts: visible ASCII, obs-text and tab.
pub open spec fn header_value_byte(b: u8) -> bool {
    (b >= 32 && b != 127) || b == 9
}

pub open spec fn header_value_ok(b: Seq<u8>) -> bool {
    forall|i: int| 0 <= i < b.len() ==> header_value_byte(#[trigger] b[i])
}

/// Canonical header names: the form `http::HeaderName::as_str` gives back
/// unchanged, i.e. 1..=65535 token characters and no uppercase letter.
pub open spec fn canonical_header_name(b: Seq<u8>) -> bool {
    &&& 1 <= b.len() <= 65535
    &&& forall|i: int| 0 <= i < b.len() ==> tchar(#[trigger] b[i]) && !is_upper(b[i])
}

/// Calls `http::Method::from_bytes`; by the crate's source, it accepts exactly
/// nonempty token text and its `as_str` is the input.
#[verifier::external_body]
fn method_from_bytes(text: &str) -> (r: Option<String>)
    ensures
        r is Some <==> token_ok(utf8(text@)),
        r matches Some(m) ==> m@ == text@,
{
    match http::Method::from_bytes(text.as_bytes()) {
        Ok(m) => Some(m.as_str().to_string()),
        Err(_) => None,
    }
}

/// ASCII lowercase of a byte string.
pub open spec fn ascii_lower(b: Seq<u8>) -> Seq<u8> {
    Seq::new(b.len(), |i: int| if is_upper(b[i]) { (b[i] + 32) as u8 } else { b[i] })
}

/// Calls `http::HeaderName::from_bytes`; by the crate's source, it accepts
/// 1..=65535 token bytes and maps them through its table to lowercase, so
/// `as_str` is the ASCII lowercase of the input, and the input itself
/// exactly when the input has no uppercase letter.
#[verifier::external_body]
fn header_name_from_bytes(text: &str) -> (r: Option<String>)
    ensures
        r is Some <==> (1 <= utf8(text@).len() <= 65535 && forall|i: int|
            0 <= i < utf8(text@).len() ==> tchar(#[trigger] utf8(text@)[i])),
        r matches Some(n) ==> (n@ == text@ <==> canonical_header_name(utf8(text@))),
        r matches Some(n) ==> utf8(n@) == ascii_lower(utf8(text@)),
{
    match http::HeaderName::from_bytes(text.as_bytes()) {
        Ok(n) => Some(n.as_str().to_string()),
        Err(_) => None,
    }
}

/// Calls `http::HeaderValue::from_str`; by the crate's source, it accepts
/// exactly the texts whose bytes are all `header_value_byte`s.
#[verifier::external_body]
fn header_value_from_str(text: &str) -> (r: bool)
    ensures
        r == header_value_ok(utf8(text@)),
{
    http::HeaderValue::from_str(text).is_ok()
}

/// Parses an HTTP method; `Some` holds its canonical text.
pub fn parse_method(text: &str) -> (r: Option<String>)
    ensures
        r is Some <==> token_ok(utf8(text@)),
        r matches Some(m) ==> m@ == text@,
{
    method_from_bytes(text)
}

/// Parses an HTTP header name; `Some` holds its lowercase text.
pub fn parse_header_name(text: &str) -> (r: Option<String>)
    ensures
        r is Some <==> (1 <= utf8(text@).len() <= 65535 && forall|i: int|
            0 <= i < utf8(text@).len() ==> tchar(#[trigger] utf8(text@)[i])),
        r matches Some(n) ==> (n@ == text@ <==> canonical_header_name(utf8(text@))),
        r matches Some(n) ==> utf8(n@) == ascii_lower(utf8(text@)),
{
    header_name_from_bytes(text)
}

/// Whether a text is a valid HTTP header value.
pub fn is_header_value(text: &str) -> (r: bool)
    ensures
        r == header_value_ok(utf8(text@)),
{
    header_value_from_str(text)
}

/// The parts of an `http::uri::Authority` that host canonicalization reads.
pub struct AuthorityView {
    pub text: Seq<char>,
    pub host: Seq<char>,
    pub port_present: bool,
    pub port: Option<u16>,
}

/// A parsed request authority (`host[:port]`).
#[derive(Clone, Debug)]
pub struct AuthorityParts {
    text: String,
    host: String,
    port_present: bool,
    port: Option<u16>,
}

impl View for AuthorityParts {
    type V = AuthorityView;

    closed spec fn view(&self) -> AuthorityView {
        AuthorityView {
            text: self.text@,
            host: self.host@,
            port_present: self.port_present,
            port: self.port,
        }
    }
}

/// What `str::parse::<http::uri::Authority>` gives for a text.
pub uninterp spec fn authority_from_str(text: Seq<char>) -> Option<AuthorityView>;

/// Calls `str::parse::<http::uri::Authority>` and copies out its text, host,
/// whether a port parses and its number. The crate keeps the parsed text as
/// given; the rest of the result is named by `authority_from_str`.
#[verifier::external_body]
fn authority_parse(text: &str) -> (r: Option<AuthorityParts>)
    ensures
        r is Some <==> authority_from_str(text@) is Some,
        r matches Some(a) ==> a@ == authority_from_str(text@)->0 && a@.text == text@,
{
    match text.parse::<http::uri::Authority>() {
        Ok(a) => Some(AuthorityParts {
            text: a.as_str().to_string(), host: a.host().to_string(),
            port_present: a.port().is_some(), port: a.port_u16(),
        }),
        Err(_) => None,
    }
}

impl AuthorityParts {
    /// Parses an authority.
    pub fn parse(text: &str) -> (r: Option<AuthorityParts>)
        ensures
            r is Some <==> authority_from_str(text@) is Some,
            r matches Some(a) ==> a@ == authority_from_str(text@)->0 && a@.text == text@,
    {
        authority_parse(text)
    }

    pub fn as_str(&self) -> (r: &str)
        ensures
            r@ == self@.text,
    {
        self.text.as_str()
    }

    pub fn host(&self) -> (r: &str)
        ensures
            r@ == self@.host,
    {
        self.host.as_str()
    }

    pub fn port_present(&self) -> (r: bool)
        ensures
            r == self@.port_present,
    {
        self.port_present
    }

    pub fn port_u16(&self) -> (r: Option<u16>)
        ensures
            r == self@.port,
    {
        self.port
    }
}

} // verus!
