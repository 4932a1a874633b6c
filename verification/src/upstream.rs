//! What a request becomes on its way upstream: how often it may be tried,
//! and the target URI on an endpoint.

use vstd::prelude::*;
use vstd::string::{StrSliceExecFns, StringExecFns};
use crate::schema::{EndpointConfig, RetryConfig};
use crate::text::str_eq;
use crate::web::{parse_uri, uri_from_str};
use crate::text::{utf8, trimmed, chars_trim, ascii_string};
use crate::negotiate::{ascii_chars, bytes_chars, bytes_visible, find_upto, lemma_find_upto, chars_find_upto};
use crate::route::visible_ascii;
use crate::cors::list_items;

verus! {

/// Attempts allowed for a request: the policy's budget only for an
/// idempotent method that is no WebSocket or gRPC exchange and whose body
/// has a known size within the replay bound; one otherwise.
pub open spec fn attempt_budget_spec(
    retry: RetryConfig,
    retryable_method: bool,
    websocket: bool,
    grpc: bool,
    body_size: Option<u64>,
) -> u32 {
    if retry.max_attempts > 1 && retryable_method && !websocket && !grpc && (body_size matches Some(s)
        && s <= retry.replay_body_bytes) {
        retry.max_attempts
    } else {
        1
    }
}

/// The number of attempts a request may make.
pub fn attempt_budget(
    retry: &RetryConfig,
    retryable_method: bool,
    websocket: bool,
    grpc: bool,
    body_size: Option<u64>,
) -> (r: u32)
    ensures
        r == attempt_budget_spec(*retry, retryable_method, websocket, grpc, body_size),
        r >= 1,
{
    let replayable = match body_size {
        Some(s) => (s as u128) <= (retry.replay_body_bytes as u128),
        None => false,
    };
    if retry.max_attempts > 1 && retryable_method && !websocket && !grpc && replayable {
        retry.max_attempts
    } else {
        1
    }
}

/// `p` without trailing `/`.
pub open spec fn trim_end_slashes(p: Seq<char>) -> Seq<char>
    decreases p.len(),
{
    if p.len() > 0 && p.last() == '/' {
        trim_end_slashes(p.drop_last())
    } else {
        p
    }
}

/// `p` without leading `/`.
pub open spec fn trim_start_slashes(p: Seq<char>) -> Seq<char>
    decreases p.len(),
{
    if p.len() > 0 && p[0] == '/' {
        trim_start_slashes(p.drop_first())
    } else {
        p
    }
}

/// The upstream path: the endpoint's base path, without trailing `/`,
/// joined to the request path with exactly one `/`; the request path alone
/// under an empty base.
pub open spec fn joined_upstream_path(base: Seq<char>, request: Seq<char>) -> Seq<char> {
    let b = trim_end_slashes(base);
    if b.len() == 0 {
        request
    } else if request == "/"@ {
        b + "/"@
    } else {
        b + "/"@ + trim_start_slashes(request)
    }
}

fn trim_slashes(s: &str) -> (r: (usize, usize))
    ensures
        r.0 <= s@.len(),
        r.1 <= s@.len(),
        s@.subrange(0, r.1 as int) == trim_end_slashes(s@),
        s@.subrange(r.0 as int, s@.len() as int) == trim_start_slashes(s@),
{
    let n = s.unicode_len();
    proof {
        assert(s@.subrange(0, n as int) =~= s@);
    }
    let mut b = n;
    while b > 0 && s.get_char(b - 1) == '/'
        invariant
            b <= n == s@.len(),
            trim_end_slashes(s@.subrange(0, b as int)) == trim_end_slashes(s@),
        decreases b,
    {
        proof {
            assert(s@.subrange(0, b as int).drop_last() =~= s@.subrange(0, b - 1));
        }
        b -= 1;
    }
    let mut a: usize = 0;
    proof {
        assert(s@.subrange(0, n as int) =~= s@);
    }
    while a < n && s.get_char(a) == '/'
        invariant
            a <= n == s@.len(),
            trim_start_slashes(s@.subrange(a as int, n as int)) == trim_start_slashes(s@),
            forall|k: int| 0 <= k < a ==> s@[k] == '/',
        decreases n - a,
    {
        proof {
            assert(s@.subrange(a as int, n as int).drop_first() =~= s@.subrange(a + 1, n as int));
        }
        a += 1;
    }
    (a, b)
}

/// The serialization `url::Url::set_path` leaves on the URL a text
/// parses to.
pub uninterp spec fn url_path_set(url: Seq<char>, path: Seq<char>) -> Option<Seq<char>>;

/// Calls `url::Url::set_path` on the URL `url` parses to (the text is
/// turned into the `Url` argument, the result back into its
/// serialization); named by `url_path_set`.
#[verifier::external_body]
fn url_set_path(url: &str, path: &str) -> (r: Option<String>)
    ensures
        match r {
            Some(t) => url_path_set(url@, path@) == Some(t@),
            None => url_path_set(url@, path@) is None,
        },
{
    let mut u = url::Url::parse(url).ok()?;
    u.set_path(path);
    Some(u.as_str().to_string())
}

/// The serialization `url::Url::set_query` leaves on the URL a text
/// parses to.
pub uninterp spec fn url_query_set(url: Seq<char>, query: Option<Seq<char>>) -> Option<Seq<char>>;

/// Calls `url::Url::set_query` on the URL `url` parses to (the text is
/// turned into the `Url` argument, the result back into its
/// serialization); named by `url_query_set`.
#[verifier::external_body]
fn url_set_query(url: &str, query: Option<&str>) -> (r: Option<String>)
    ensures
        match r {
            Some(t) => url_query_set(url@, crate::pipeline::str_opt(query)) == Some(t@),
            None => url_query_set(url@, crate::pipeline::str_opt(query)) is None,
        },
{
    let mut u = url::Url::parse(url).ok()?;
    u.set_query(query);
    Some(u.as_str().to_string())
}

/// The endpoint URL with its path replaced, then its query.
pub open spec fn url_with_target(url: Seq<char>, path: Seq<char>, query: Option<Seq<char>>) -> Option<
    Seq<char>,
> {
    match url_path_set(url, path) {
        Some(t) => url_query_set(t, query),
        None => None,
    }
}

/// The target URI of a request on an endpoint, when it parses as an
/// `http::Uri`.
pub fn upstream_uri(endpoint: &EndpointConfig, request_path: &str, query: Option<&str>) -> (r: Option<
    String,
>)
    ensures
        match url_with_target(
            endpoint.url@.serialization,
            joined_upstream_path(endpoint.url@.path, request_path@),
            crate::pipeline::str_opt(query),
        ) {
            Some(t) => if uri_from_str(t) is Some {
                r matches Some(s) && s@ == t
            } else {
                r is None
            },
            None => r is None,
        },
{
    let base = endpoint.url.path();
    let (_, end) = trim_slashes(base);
    let mut joined: String;
    proof {
        reveal_strlit("/");
    }
    if end == 0 {
        joined = String::from_str(request_path);
        proof {
            assert(base@.subrange(0, 0) =~= Seq::<char>::empty());
        }
    } else {
        joined = String::from_str(base.substring_char(0, end));
        if str_eq(request_path, "/") {
            joined.append("/");
        } else {
            let (start, _) = trim_slashes(request_path);
            joined.append("/");
            joined.append(request_path.substring_char(start, request_path.unicode_len()));
        }
    }
    let with_path = match url_set_path(endpoint.url.as_str(), joined.as_str()) {
        Some(t) => t,
        None => {
            return None;
        },
    };
    let text = match url_set_query(with_path.as_str(), query) {
        Some(t) => t,
        None => {
            return None;
        },
    };
    if parse_uri(text.as_str()).is_none() {
        return None;
    }
    Some(text)
}

/// ASCII lowercase bytes of ASCII text.
pub open spec fn lower_ascii_bytes(t: Seq<char>) -> Seq<u8> {
    Seq::new(
        t.len(),
        |i: int|
            if 'A' <= t[i] <= 'Z' {
                ((t[i] as u32) + 32) as u8
            } else {
                (t[i] as u32) as u8
            },
    )
}

/// The nonempty items, lowercased.
pub open spec fn nonempty_lowered(items: Seq<Seq<char>>) -> Seq<Seq<u8>>
    decreases items.len(),
{
    if items.len() == 0 {
        Seq::empty()
    } else {
        nonempty_lowered(items.drop_last()) + if items.last().len() == 0 {
            Seq::<Seq<u8>>::empty()
        } else {
            seq![lower_ascii_bytes(items.last())]
        }
    }
}

/// The options a `Connection` field names: the nonempty, trimmed,
/// lowercased items of its readable values, in order.
pub open spec fn connection_tokens(values: Seq<Vec<u8>>) -> Seq<Seq<u8>>
    decreases values.len(),
{
    if values.len() == 0 {
        Seq::empty()
    } else {
        connection_tokens(values.drop_last()) + if visible_ascii(values.last()@) {
            nonempty_lowered(list_items(ascii_chars(values.last()@), 0))
        } else {
            Seq::<Seq<u8>>::empty()
        }
    }
}

/// Header edits that strip hop-by-hop fields before forwarding.
#[derive(Debug)]
pub struct HopPlan {
    /// Fields to remove: those the connection options name (but `upgrade`
    /// for a kept upgrade), then the fixed hop-by-hop fields.
    pub remove: Vec<String>,
    /// Set `Connection: upgrade` (a kept upgrade) instead of removing
    /// `Connection` and `Upgrade`.
    pub connection_upgrade: bool,
    /// Set `TE: trailers`.
    pub te_trailers: bool,
}

pub open spec fn upgrade_bytes() -> Seq<u8> {
    seq![0x75u8, 0x70u8, 0x67u8, 0x72u8, 0x61u8, 0x64u8, 0x65u8]
}

/// The option names removed: every connection option but `upgrade` when
/// the upgrade is kept.
pub open spec fn removed_options(tokens: Seq<Seq<u8>>, preserve_upgrade: bool) -> Seq<Seq<u8>>
    decreases tokens.len(),
{
    if tokens.len() == 0 {
        Seq::empty()
    } else {
        removed_options(tokens.drop_last(), preserve_upgrade) + if preserve_upgrade && tokens.last()
            == upgrade_bytes() {
            Seq::<Seq<u8>>::empty()
        } else {
            seq![tokens.last()]
        }
    }
}

pub open spec fn fixed_hop_fields() -> Seq<Seq<char>> {
    seq!["keep-alive"@, "proxy-connection"@, "transfer-encoding"@, "trailer"@, "te"@]
}

fn lowered_token(c: &Vec<char>, a: usize, b: usize) -> (r: Vec<u8>)
    requires
        a <= b <= c@.len(),
        forall|k: int| 0 <= k < c@.len() ==> (c@[k] as u32) < 0x80,
    ensures
        r@ == lower_ascii_bytes(c@.subrange(a as int, b as int)),
        forall|k: int| 0 <= k < r@.len() ==> #[trigger] r@[k] < 0x80,
{
    let mut out: Vec<u8> = Vec::new();
    let mut i = a;
    while i < b
        invariant
            a <= i <= b <= c@.len(),
            forall|k: int| 0 <= k < c@.len() ==> (c@[k] as u32) < 0x80,
            out@ =~= lower_ascii_bytes(c@.subrange(a as int, i as int)),
            forall|k: int| 0 <= k < out@.len() ==> #[trigger] out@[k] < 0x80,
        decreases b - i,
    {
        let ch = c[i];
        let v = ch as u32;
        assert(v < 0x80);
        let byte: u8 = if 'A' <= ch && ch <= 'Z' {
            (v + 32) as u8
        } else {
            v as u8
        };
        out.push(byte);
        proof {
            assert(c@.subrange(a as int, i + 1) =~= c@.subrange(a as int, i as int).push(ch));
        }
        i += 1;
    }
    out
}

proof fn lemma_removed_concat(a: Seq<Seq<u8>>, b: Seq<Seq<u8>>, preserve: bool)
    ensures
        removed_options(a + b, preserve) == removed_options(a, preserve) + removed_options(b, preserve),
    decreases b.len(),
{
    if b.len() == 0 {
        assert(a + b =~= a);
        assert(removed_options(a, preserve) + removed_options(b, preserve) =~= removed_options(a, preserve));
    } else {
        lemma_removed_concat(a, b.drop_last(), preserve);
        assert((a + b).drop_last() =~= a + b.drop_last());
        assert((a + b).last() == b.last());
    }
}

proof fn lemma_lowered_step(items: Seq<Seq<char>>, k: int)
    requires
        0 <= k < items.len(),
    ensures
        nonempty_lowered(items.take(k + 1)) == nonempty_lowered(items.take(k)) + if items[k].len()
            == 0 {
            Seq::<Seq<u8>>::empty()
        } else {
            seq![lower_ascii_bytes(items[k])]
        },
{
    assert(items.take(k + 1).drop_last() =~= items.take(k));
}

/// Plans the removal of hop-by-hop fields.
pub fn strip_hop_by_hop_headers(
    connection: &Vec<Vec<u8>>,
    preserve_upgrade: bool,
    preserve_te_trailers: bool,
) -> (r: HopPlan)
    ensures
        r.remove@.len() == removed_options(connection_tokens(connection@), preserve_upgrade).len()
            + 5,
        forall|k: int|
            0 <= k < removed_options(connection_tokens(connection@), preserve_upgrade).len() ==> utf8(
                (#[trigger] r.remove@[k])@,
            ) == removed_options(connection_tokens(connection@), preserve_upgrade)[k],
        forall|k: int|
            0 <= k < 5 ==> r.remove@[removed_options(connection_tokens(connection@), preserve_upgrade).len()
                + k]@ == fixed_hop_fields()[k],
        r.connection_upgrade == preserve_upgrade,
        r.te_trailers == preserve_te_trailers,
{
    let mut remove: Vec<String> = Vec::new();
    let upgrade: [u8; 7] = [0x75, 0x70, 0x67, 0x72, 0x61, 0x64, 0x65];
    assert(upgrade@ =~= upgrade_bytes());
    let mut i: usize = 0;
    while i < connection.len()
        invariant
            i <= connection@.len(),
            upgrade@ == upgrade_bytes(),
            remove@.len() == removed_options(connection_tokens(connection@.take(i as int)), preserve_upgrade).len(),
            forall|k: int|
                0 <= k < remove@.len() ==> utf8((#[trigger] remove@[k])@) == removed_options(
                    connection_tokens(connection@.take(i as int)),
                    preserve_upgrade,
                )[k],
        decreases connection@.len() - i,
    {
        let ghost before = removed_options(connection_tokens(connection@.take(i as int)), preserve_upgrade);
        proof {
            assert(connection@.take(i + 1).drop_last() =~= connection@.take(i as int));
        }
        if bytes_visible(&connection[i]) {
            let c = bytes_chars(&connection[i]);
            proof {
                assert forall|k: int| 0 <= k < c@.len() implies (c@[k] as u32) < 0x80 by {
                    assert(c@[k] == connection@[i as int]@[k] as char);
                }
            }
            let n = c.len();
            let ghost items = list_items(c@, 0);
            let mut s: usize = 0;
            let ghost mut count: int = 0;
            loop
                invariant_except_break
                    items == items.take(count) + list_items(c@, s as int),
                    count < items.len(),
                invariant
                    n == c@.len(),
                    s <= n,
                    forall|k: int| 0 <= k < c@.len() ==> (c@[k] as u32) < 0x80,
                    upgrade@ == upgrade_bytes(),
                    items == list_items(c@, 0),
                    0 <= count <= items.len(),
                    remove@.len() == before.len() + removed_options(
                        nonempty_lowered(items.take(count)),
                        preserve_upgrade,
                    ).len(),
                    forall|k: int| 0 <= k < before.len() ==> utf8((#[trigger] remove@[k])@) == before[k],
                    forall|k: int|
                        0 <= k < removed_options(nonempty_lowered(items.take(count)), preserve_upgrade).len()
                            ==> utf8((#[trigger] remove@[before.len() + k])@) == removed_options(
                            nonempty_lowered(items.take(count)),
                            preserve_upgrade,
                        )[k],
                ensures
                    count == items.len(),
                decreases n - s,
            {
                proof {
                    lemma_find_upto(c@, ',', s as int, n as int);
                    crate::cors::lemma_list_items_step(c@, s as int);
                }
                let e = chars_find_upto(&c, ',', s, n);
                let (a, b) = chars_trim(&c, s, e);
                let ghost item = trimmed(c@, s as int, e as int);
                proof {
                    assert(item == c@.subrange(a as int, b as int));
                    assert(items[count] == item);
                    lemma_lowered_step(items, count);
                    lemma_removed_concat(
                        nonempty_lowered(items.take(count)),
                        if item.len() == 0 {
                            Seq::<Seq<u8>>::empty()
                        } else {
                            seq![lower_ascii_bytes(item)]
                        },
                        preserve_upgrade,
                    );
                }
                let ghost prior = removed_options(nonempty_lowered(items.take(count)), preserve_upgrade);
                if a < b {
                    let lowered = lowered_token(&c, a, b);
                    let is_upgrade = crate::text::slice_eq(lowered.as_slice(), upgrade.as_slice());
                    proof {
                        let single = seq![lower_ascii_bytes(item)];
                        assert(single.drop_last() =~= Seq::<Seq<u8>>::empty());
                        assert(removed_options(Seq::<Seq<u8>>::empty(), preserve_upgrade) =~= Seq::<Seq<u8>>::empty());
                    }
                    if !(preserve_upgrade && is_upgrade) {
                        let name = ascii_string(&lowered);
                        remove.push(name);
                        proof {
                            let next = removed_options(nonempty_lowered(items.take(count + 1)), preserve_upgrade);
                            assert(next =~= prior.push(lowered@));
                            assert forall|k: int| 0 <= k < next.len() implies utf8((#[trigger] remove@[before.len() + k])@) == next[k] by {}
                        }
                    } else {
                        proof {
                            let next = removed_options(nonempty_lowered(items.take(count + 1)), preserve_upgrade);
                            assert(next =~= prior);
                        }
                    }
                } else {
                    proof {
                        assert(item.len() == 0);
                        let next = removed_options(nonempty_lowered(items.take(count + 1)), preserve_upgrade);
                        assert(removed_options(Seq::<Seq<u8>>::empty(), preserve_upgrade) =~= Seq::<Seq<u8>>::empty());
                        assert(next =~= prior);
                    }
                }
                proof {
                    assert(items.take(count + 1) =~= items.take(count).push(item));
                }
                proof {
                    count = count + 1;
                }
                if e >= n {
                    proof {
                        assert(items =~= items.take(count));
                    }
                    break;
                }
                proof {
                    assert(list_items(c@, s as int) == seq![item] + list_items(c@, e + 1));
                    assert(items =~= items.take(count) + list_items(c@, e + 1));
                    assert(list_items(c@, e + 1).len() > 0);
                }
                s = e + 1;
            }
            proof {
                assert(items.take(count) =~= items);
                lemma_removed_concat(connection_tokens(connection@.take(i as int)), nonempty_lowered(items), preserve_upgrade);
                let after = removed_options(connection_tokens(connection@.take(i + 1)), preserve_upgrade);
                let added = removed_options(nonempty_lowered(items), preserve_upgrade);
                assert(after == before + added);
                assert forall|k: int| 0 <= k < remove@.len() implies utf8((#[trigger] remove@[k])@) == after[k] by {
                    if k >= before.len() {
                        assert(remove@[before.len() + (k - before.len())] == remove@[k]);
                    }
                }
            }
        } else {
            proof {
                assert(connection_tokens(connection@.take(i + 1)) =~= connection_tokens(connection@.take(i as int)));
            }
        }
        i += 1;
    }
    proof {
        assert(connection@.take(connection@.len() as int) =~= connection@);
    }
    remove.push(String::from_str("keep-alive"));
    remove.push(String::from_str("proxy-connection"));
    remove.push(String::from_str("transfer-encoding"));
    remove.push(String::from_str("trailer"));
    remove.push(String::from_str("te"));
    HopPlan { remove, connection_upgrade: preserve_upgrade, te_trailers: preserve_te_trailers }
}

} // verus!
