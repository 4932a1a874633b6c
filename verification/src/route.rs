//! Request-target canonicalization, host canonicalization and the route
//! matching scores used to select one route per request.

use vstd::prelude::*;
use crate::text::{utf8, is_alnum, is_lower, is_control, has_byte, contains_seq, slice_has_byte,
    slice_contains, byte_is_alnum, byte_is_lower, byte_is_control, ascii_string};
use crate::checks::dot_segment_at;
use crate::text::{is_upper, byte_is_upper, str_chars, str_eq};
use crate::net::{IpAddress, std_ip_from_str, std_ip_text};
use crate::naming::{upstream_host_ok, upstream_host_bytes_ok, label_byte};
use crate::schema::RouteConfig;
use vstd::string::StrSliceExecFns;

verus! {

/// The value of one hexadecimal digit.
pub open spec fn hex_val(b: u8) -> Option<u8> {
    if 0x30 <= b <= 0x39 {
        Some((b - 0x30) as u8)
    } else if 0x61 <= b <= 0x66 {
        Some((b - 0x61 + 10) as u8)
    } else if 0x41 <= b <= 0x46 {
        Some((b - 0x41 + 10) as u8)
    } else {
        None
    }
}

/// The value of one hexadecimal digit.
pub fn hex_value(value: u8) -> (r: Option<u8>)
    ensures
        r == hex_val(value),
{
    if 0x30 <= value && value <= 0x39 {
        Some(value - 0x30)
    } else if 0x61 <= value && value <= 0x66 {
        Some(value - 0x61 + 10)
    } else if 0x41 <= value && value <= 0x46 {
        Some(value - 0x41 + 10)
    } else {
        None
    }
}

/// The byte that two hexadecimal digits encode.
pub open spec fn decode_hex_spec(high: u8, low: u8) -> Option<u8> {
    match (hex_val(high), hex_val(low)) {
        (Some(h), Some(l)) => Some((h * 16 + l) as u8),
        _ => None,
    }
}

/// Decodes a `%XX` escape's two digits.
pub fn decode_hex(high: u8, low: u8) -> (r: Option<u8>)
    ensures
        r == decode_hex_spec(high, low),
{
    let h = match hex_value(high) {
        Some(h) => h,
        None => {
            return None;
        },
    };
    let l = match hex_value(low) {
        Some(l) => l,
        None => {
            return None;
        },
    };
    assert((h << 4u8) | l == h * 16 + l) by (bit_vector)
        requires
            h < 16,
            l < 16,
    ;
    Some((h << 4) | l)
}

/// RFC 3986 unreserved characters.
pub open spec fn unreserved(b: u8) -> bool {
    is_alnum(b) || b == 0x2d || b == 0x2e || b == 0x5f || b == 0x7e
}

pub fn is_unreserved(value: u8) -> (r: bool)
    ensures
        r == unreserved(value),
{
    byte_is_alnum(value) || value == 0x2d || value == 0x2e || value == 0x5f || value == 0x7e
}

pub open spec fn ascii_upper(b: u8) -> u8 {
    if is_lower(b) {
        (b - 32) as u8
    } else {
        b
    }
}

fn to_upper(b: u8) -> (r: u8)
    ensures
        r == ascii_upper(b),
{
    if byte_is_lower(b) {
        b - 32
    } else {
        b
    }
}

/// A decoded escape is refused when it is `/`, `\` or a control byte.
pub open spec fn forbidden_decoded(d: u8) -> bool {
    d == 0x2f || d == 0x5c || is_control(d)
}

/// What one decoded escape becomes: the byte itself when unreserved, else
/// the escape with uppercase digits.
pub open spec fn escape_piece(d: u8, high: u8, low: u8) -> Seq<u8> {
    if unreserved(d) {
        seq![d]
    } else {
        seq![0x25u8, ascii_upper(high), ascii_upper(low)]
    }
}

/// Scans a path: `%XX` escapes are decoded (refusing `/`, `\` and control
/// bytes) and re-encoded canonically; other control bytes are refused.
pub open spec fn scan_path(b: Seq<u8>) -> Option<Seq<u8>>
    decreases b.len(),
{
    if b.len() == 0 {
        Some(Seq::empty())
    } else if b[0] == 0x25 {
        if b.len() >= 3 && decode_hex_spec(b[1], b[2]) is Some {
            let d = decode_hex_spec(b[1], b[2])->0;
            if forbidden_decoded(d) {
                None
            } else {
                match scan_path(b.subrange(3, b.len() as int)) {
                    Some(rest) => Some(escape_piece(d, b[1], b[2]) + rest),
                    None => None,
                }
            }
        } else {
            None
        }
    } else if is_control(b[0]) {
        None
    } else {
        match scan_path(b.drop_first()) {
            Some(rest) => Some(seq![b[0]] + rest),
            None => None,
        }
    }
}

pub open spec fn has_dot_segment(b: Seq<u8>) -> bool {
    exists|i: int| 0 <= i < b.len() && #[trigger] dot_segment_at(b, i)
}

pub open spec fn all_ascii(b: Seq<u8>) -> bool {
    forall|i: int| 0 <= i < b.len() ==> #[trigger] b[i] < 0x80
}

/// The canonical form of a request path, if it has one: it starts with `/`,
/// is ASCII without `\` or `//`, scans cleanly, and has no `.` or `..`
/// segment after decoding.
pub open spec fn canonical_request_path(b: Seq<u8>) -> Option<Seq<u8>> {
    if b.len() >= 1 && b[0] == 0x2f && all_ascii(b) && !has_byte(b, 0x5c) && !contains_seq(
        b,
        seq![0x2fu8, 0x2fu8],
    ) {
        match scan_path(b) {
            Some(o) => if has_dot_segment(o) {
                None
            } else {
                Some(o)
            },
            None => None,
        }
    } else {
        None
    }
}

pub open spec fn prepend(p: Seq<u8>, o: Option<Seq<u8>>) -> Option<Seq<u8>> {
    match o {
        Some(r) => Some(p + r),
        None => None,
    }
}

fn has_dot_segment_exec(b: &Vec<u8>) -> (r: bool)
    ensures
        r == has_dot_segment(b@),
{
    let mut i: usize = 0;
    while i < b.len()
        invariant
            i <= b@.len(),
            forall|k: int| 0 <= k < i ==> !#[trigger] dot_segment_at(b@, k),
        decreases b@.len() - i,
    {
        let before = i == 0 || b[i - 1] == 0x2f;
        if before && b[i] == 0x2e {
            let after1 = i + 1 >= b.len() || b[i + 1] == 0x2f;
            if after1 {
                assert(dot_segment_at(b@, i as int));
                return true;
            }
            if i + 1 < b.len() && b[i + 1] == 0x2e {
                let after2 = i + 2 >= b.len() || b[i + 2] == 0x2f;
                if after2 {
                    assert(dot_segment_at(b@, i as int));
                    return true;
                }
            }
        }
        i += 1;
    }
    false
}

fn bytes_all_ascii(b: &[u8]) -> (r: bool)
    ensures
        r == all_ascii(b@),
{
    let mut i: usize = 0;
    while i < b.len()
        invariant
            i <= b@.len(),
            forall|k: int| 0 <= k < i ==> #[trigger] b@[k] < 0x80,
        decreases b@.len() - i,
    {
        if b[i] >= 0x80 {
            return false;
        }
        i += 1;
    }
    true
}

proof fn lemma_scan_ascii(b: Seq<u8>)
    requires
        all_ascii(b),
        scan_path(b) is Some,
    ensures
        all_ascii(scan_path(b)->0),
    decreases b.len(),
{
    if b.len() > 0 {
        if b[0] == 0x25 {
            let rest = b.subrange(3, b.len() as int);
            assert(all_ascii(rest)) by {
                assert forall|i: int| 0 <= i < rest.len() implies #[trigger] rest[i] < 0x80 by {
                    assert(rest[i] == b[i + 3]);
                }
            }
            lemma_scan_ascii(rest);
            let d = decode_hex_spec(b[1], b[2])->0;
            let p = escape_piece(d, b[1], b[2]);
            assert(b[1] < 0x80 && b[2] < 0x80);
            assert(all_ascii(p));
            let r = scan_path(rest)->0;
            assert(scan_path(b)->0 =~= p + r);
        } else {
            let rest = b.drop_first();
            assert(all_ascii(rest)) by {
                assert forall|i: int| 0 <= i < rest.len() implies #[trigger] rest[i] < 0x80 by {
                    assert(rest[i] == b[i + 1]);
                }
            }
            lemma_scan_ascii(rest);
        }
    }
}

/// The canonical form of a request path: `%XX` escapes of unreserved bytes
/// are decoded, other escapes get uppercase digits; ambiguous forms are
/// refused.
pub fn canonical_path(path: &str) -> (r: Result<String, ()>)
    ensures
        r is Ok <==> canonical_request_path(utf8(path@)) is Some,
        r matches Ok(s) ==> utf8(s@) == canonical_request_path(utf8(path@))->0,
{
    let b = path.as_bytes();
    let slash: [u8; 2] = [0x2f, 0x2f];
    assert(slash@ =~= seq![0x2fu8, 0x2fu8]);
    if b.len() == 0 || b[0] != 0x2f || !bytes_all_ascii(b) || slice_has_byte(b, 0x5c)
        || slice_contains(b, slash.as_slice()) {
        return Err(());
    }
    let mut out: Vec<u8> = Vec::new();
    let mut index: usize = 0;
    assert(b@.subrange(0, b@.len() as int) =~= b@);
    while index < b.len()
        invariant
            b@ == utf8(path@),
            index <= b@.len(),
            all_ascii(b@),
            all_ascii(out@),
            scan_path(b@) == prepend(out@, scan_path(b@.subrange(index as int, b@.len() as int))),
        decreases b@.len() - index,
    {
        let ghost rest = b@.subrange(index as int, b@.len() as int);
        let byte = b[index];
        if byte == 0x25 {
            if b.len() - index <= 2 {
                return Err(());
            }
            let high = b[index + 1];
            let low = b[index + 2];
            assert(rest[1] == high && rest[2] == low);
            let decoded = match decode_hex(high, low) {
                Some(d) => d,
                None => {
                    return Err(());
                },
            };
            if decoded == 0x2f || decoded == 0x5c || byte_is_control(decoded) {
                return Err(());
            }
            let ghost before = out@;
            if is_unreserved(decoded) {
                out.push(decoded);
            } else {
                out.push(0x25);
                out.push(to_upper(high));
                out.push(to_upper(low));
            }
            proof {
                assert(rest.subrange(3, rest.len() as int) =~= b@.subrange(
                    index + 3,
                    b@.len() as int,
                ));
                assert(out@ =~= before + escape_piece(decoded, high, low));
                match scan_path(b@.subrange(index + 3, b@.len() as int)) {
                    Some(r2) => {
                        assert(before + (escape_piece(decoded, high, low) + r2) =~= out@ + r2);
                    },
                    None => {},
                }
            }
            index += 3;
        } else {
            if byte_is_control(byte) {
                return Err(());
            }
            let ghost before = out@;
            out.push(byte);
            proof {
                assert(rest.drop_first() =~= b@.subrange(index + 1, b@.len() as int));
                match scan_path(b@.subrange(index + 1, b@.len() as int)) {
                    Some(r2) => {
                        assert(before + (seq![byte] + r2) =~= out@ + r2);
                    },
                    None => {},
                }
            }
            index += 1;
        }
    }
    assert(b@.subrange(index as int, b@.len() as int) =~= Seq::<u8>::empty());
    assert(out@ + Seq::<u8>::empty() =~= out@);
    if has_dot_segment_exec(&out) {
        return Err(());
    }
    Ok(ascii_string(&out))
}


proof fn lemma_occurs_shift(s: Seq<u8>, pat: Seq<u8>, k: int, i: int)
    requires
        0 <= k <= s.len(),
        crate::text::occurs_at(s.subrange(k, s.len() as int), pat, i),
    ensures
        crate::text::occurs_at(s, pat, i + k),
{
    let t = s.subrange(k, s.len() as int);
    assert(s.subrange(i + k, i + k + pat.len()) =~= t.subrange(i, i + pat.len()));
}

proof fn lemma_hex_upper(x: u8)
    requires
        hex_val(x) is Some,
    ensures
        hex_val(ascii_upper(x)) == hex_val(x),
        ascii_upper(ascii_upper(x)) == ascii_upper(x),
        ascii_upper(x) != 0x2f && ascii_upper(x) != 0x5c && ascii_upper(x) != 0x25,
        !is_control(ascii_upper(x)),
        ascii_upper(x) < 0x80,
{
}

/// Facts about one scan: scanning its output again changes nothing, it adds
/// no `\`, it starts with `/` exactly when its input does, and it creates no
/// `//`.
proof fn lemma_scan_fixed(b: Seq<u8>)
    requires
        scan_path(b) is Some,
        !has_byte(b, 0x5c),
    ensures
        scan_path(scan_path(b)->0) == scan_path(b),
        !has_byte(scan_path(b)->0, 0x5c),
        (scan_path(b)->0.len() > 0 && scan_path(b)->0[0] == 0x2f) <==> (b.len() > 0 && b[0]
            == 0x2f),
        contains_seq(scan_path(b)->0, seq![0x2fu8, 0x2fu8]) ==> contains_seq(
            b,
            seq![0x2fu8, 0x2fu8],
        ),
    decreases b.len(),
{
    let slashes = seq![0x2fu8, 0x2fu8];
    if b.len() == 0 {
        let o = scan_path(b)->0;
        assert(o.len() == 0);
        if contains_seq(o, slashes) {
            let i = choose|i: int| crate::text::occurs_at(o, slashes, i);
        }
        return;
    }
    let o = scan_path(b)->0;
    let skip: int = if b[0] == 0x25 {
        3
    } else {
        1
    };
    let b2 = b.subrange(skip, b.len() as int);
    assert(!has_byte(b2, 0x5c)) by {
        if has_byte(b2, 0x5c) {
            let i = choose|i: int| 0 <= i < b2.len() && b2[i] == 0x5c;
            assert(b[i + skip] == 0x5c);
        }
    }
    if b[0] != 0x25 {
        assert(b.drop_first() =~= b2);
    }
    lemma_scan_fixed(b2);
    let o2 = scan_path(b2)->0;
    let piece: Seq<u8> = if b[0] == 0x25 {
        escape_piece(decode_hex_spec(b[1], b[2])->0, b[1], b[2])
    } else {
        seq![b[0]]
    };
    assert(o =~= piece + o2);
    let k = piece.len() as int;
    assert(o.subrange(k, o.len() as int) =~= o2);
    if b[0] == 0x25 {
        let d = decode_hex_spec(b[1], b[2])->0;
        lemma_hex_upper(b[1]);
        lemma_hex_upper(b[2]);
        if unreserved(d) {
            assert(o.drop_first() =~= o2);
            assert(scan_path(o) == Some(seq![d] + o2));
        } else {
            let h = ascii_upper(b[1]);
            let l = ascii_upper(b[2]);
            assert(decode_hex_spec(h, l) == decode_hex_spec(b[1], b[2]));
            assert(o[0] == 0x25 && o[1] == h && o[2] == l);
            assert(escape_piece(d, h, l) =~= piece);
            assert(scan_path(o) == Some(piece + o2));
        }
    } else {
        assert(o.drop_first() =~= o2);
        assert(scan_path(o) == Some(seq![b[0]] + o2));
    }
    assert(!has_byte(o, 0x5c)) by {
        if has_byte(o, 0x5c) {
            let i = choose|i: int| 0 <= i < o.len() && o[i] == 0x5c;
            if i >= k {
                assert(o2[i - k] == 0x5c);
            }
        }
    }
    if contains_seq(o, slashes) {
        let i = choose|i: int| crate::text::occurs_at(o, slashes, i);
        assert(o[i] == 0x2f && o[i + 1] == 0x2f) by {
            assert(o.subrange(i, i + 2)[0] == o[i]);
            assert(o.subrange(i, i + 2)[1] == o[i + 1]);
        }
        if i >= k {
            assert(o2.subrange(i - k, i - k + 2) =~= o.subrange(i, i + 2));
            assert(crate::text::occurs_at(o2, slashes, i - k));
            let j = choose|j: int| crate::text::occurs_at(b2, slashes, j);
            lemma_occurs_shift(b, slashes, skip, j);
        } else {
            assert(b[0] != 0x25);
            assert(i == 0);
            assert(o2[0] == 0x2f);
            assert(b2[0] == 0x2f);
            assert(b.subrange(0, 2) =~= slashes);
            assert(crate::text::occurs_at(b, slashes, 0));
        }
    }
}

/// Canonicalizing a canonical path gives it back unchanged: whatever
/// `canonical_path` returns, `canonical_path` returns again for it.
pub proof fn lemma_canonical_path_idempotent(b: Seq<u8>)
    requires
        canonical_request_path(b) is Some,
    ensures
        canonical_request_path(canonical_request_path(b)->0) == canonical_request_path(b),
{
    let o = canonical_request_path(b)->0;
    lemma_scan_fixed(b);
    lemma_scan_ascii(b);
}


/// `v` without one pair of enclosing brackets.
pub open spec fn unbracket(v: Seq<char>) -> Seq<char> {
    if v.len() >= 2 && v[0] == '[' && v[v.len() - 1] == ']' {
        v.subrange(1, v.len() - 1)
    } else {
        v
    }
}

/// `b` without its trailing dots.
pub open spec fn trim_dots(b: Seq<u8>) -> Seq<u8>
    decreases b.len(),
{
    if b.len() > 0 && b.last() == 0x2e {
        trim_dots(b.drop_last())
    } else {
        b
    }
}

pub open spec fn ascii_lower(x: u8) -> u8 {
    if is_upper(x) {
        (x + 32) as u8
    } else {
        x
    }
}

pub open spec fn lower_bytes(b: Seq<u8>) -> Seq<u8> {
    b.map_values(|x: u8| ascii_lower(x))
}

/// The canonical host: an IP literal (brackets allowed) in its standard
/// text, or a lowercase DNS name without trailing dots.
pub open spec fn canonical_host_spec(v: Seq<char>) -> Option<Seq<u8>> {
    let u = unbracket(v);
    match std_ip_from_str(u) {
        Some(ip) => Some(utf8(std_ip_text(ip))),
        None => {
            let h = lower_bytes(trim_dots(utf8(u)));
            if upstream_host_ok(h) {
                Some(h)
            } else {
                None
            }
        },
    }
}

proof fn lemma_trim_dots_prefix(b: Seq<u8>, e: int)
    requires
        0 <= e <= b.len(),
        forall|k: int| e <= k < b.len() ==> b[k] == 0x2e,
        e == 0 || b[e - 1] != 0x2e,
    ensures
        trim_dots(b) == b.subrange(0, e),
    decreases b.len(),
{
    if b.len() > e {
        assert(b.drop_last().subrange(0, e) =~= b.subrange(0, e));
        lemma_trim_dots_prefix(b.drop_last(), e);
    } else {
        assert(b.subrange(0, e) =~= b);
    }
}

/// Canonicalizes a request or SNI host.
pub fn canonical_host(value: &str) -> (r: Result<String, ()>)
    ensures
        r is Ok <==> canonical_host_spec(value@) is Some,
        r matches Ok(s) ==> utf8(s@) == canonical_host_spec(value@)->0,
{
    let c = str_chars(value);
    let n = c.len();
    let u: &str = if n >= 2 && c[0] == '[' && c[n - 1] == ']' {
        value.substring_char(1, n - 1)
    } else {
        value
    };
    assert(u@ == unbracket(value@));
    match IpAddress::parse(u) {
        Some(ip) => {
            return Ok(ip.to_text());
        },
        None => {},
    }
    let b = u.as_bytes();
    let mut e = b.len();
    while e > 0 && b[e - 1] == 0x2e
        invariant
            e <= b@.len(),
            forall|k: int| e <= k < b@.len() ==> b@[k] == 0x2e,
        decreases e,
    {
        e -= 1;
    }
    proof {
        lemma_trim_dots_prefix(b@, e as int);
    }
    let mut lower: Vec<u8> = Vec::new();
    let mut i: usize = 0;
    while i < e
        invariant
            e <= b@.len(),
            i <= e,
            lower@ == lower_bytes(b@.subrange(0, i as int)),
        decreases e - i,
    {
        let x = b[i];
        let y = if byte_is_upper(x) {
            x + 32
        } else {
            x
        };
        lower.push(y);
        assert(lower_bytes(b@.subrange(0, i + 1)) =~= lower_bytes(b@.subrange(0, i as int)).push(
            ascii_lower(x),
        ));
        i += 1;
    }
    if !upstream_host_bytes_ok(lower.as_slice()) {
        return Err(());
    }
    assert forall|k: int| 0 <= k < lower@.len() implies #[trigger] lower@[k] < 0x80 by {
        assert(label_byte(lower@[k]) || lower@[k] == 0x2e);
    }
    Ok(ascii_string(&lower))
}

/// The score of one configured host for a request host: 2 for an exact
/// match, 1 for a single-label wildcard match, with the host's length.
pub open spec fn host_candidate_score(c: Seq<u8>, h: Seq<u8>) -> Option<(int, int)> {
    if c == h {
        Some((2, c.len() as int))
    } else if crate::text::starts_with(c, seq![0x2au8, 0x2eu8]) && crate::text::ends_with(
        h,
        c.subrange(2, c.len() as int),
    ) && ({
        let prefix = h.subrange(0, h.len() - (c.len() - 2));
        prefix.len() >= 1 && prefix[prefix.len() - 1] == 0x2e && !has_byte(
            prefix.subrange(0, prefix.len() - 1),
            0x2e,
        )
    }) {
        Some((1, c.len() as int))
    } else {
        None
    }
}

/// Lexicographic comparison of scores.
pub open spec fn pair_greater(a: (int, int), b: (int, int)) -> bool {
    a.0 > b.0 || (a.0 == b.0 && a.1 > b.1)
}

/// The greatest score among the configured hosts.
pub open spec fn best_host_score(hosts: Seq<String>, h: Seq<u8>) -> Option<(int, int)>
    decreases hosts.len(),
{
    if hosts.len() == 0 {
        None
    } else {
        let rest = best_host_score(hosts.drop_last(), h);
        match host_candidate_score(utf8(hosts.last()@), h) {
            None => rest,
            Some(s) => match rest {
                None => Some(s),
                Some(r) => if pair_greater(s, r) {
                    Some(s)
                } else {
                    Some(r)
                },
            },
        }
    }
}

/// A route's host score: (0, 0) without hosts, else the best match.
pub open spec fn host_score_spec(hosts: Seq<String>, h: Seq<u8>) -> Option<(int, int)> {
    if hosts.len() == 0 {
        Some((0, 0))
    } else {
        best_host_score(hosts, h)
    }
}

fn candidate_score(c: &str, host: &str) -> (r: Option<(u8, usize)>)
    ensures
        match r {
            Some(s) => host_candidate_score(utf8(c@), utf8(host@)) == Some((s.0 as int, s.1 as int)),
            None => host_candidate_score(utf8(c@), utf8(host@)) is None,
        },
{
    let cb = c.as_bytes();
    let hb = host.as_bytes();
    if crate::text::slice_eq(cb, hb) {
        return Some((2, cb.len()));
    }
    let wild: [u8; 2] = [0x2a, 0x2e];
    assert(wild@ =~= seq![0x2au8, 0x2eu8]);
    if !crate::text::slice_starts_with(cb, wild.as_slice()) {
        return None;
    }
    let suffix = &cb[2..cb.len()];
    if !crate::text::slice_ends_with(hb, suffix) {
        return None;
    }
    let plen = hb.len() - suffix.len();
    if plen == 0 || hb[plen - 1] != 0x2e {
        return None;
    }
    let label = &hb[0..plen - 1];
    proof {
        let prefix = hb@.subrange(0, plen as int);
        assert(prefix.subrange(0, prefix.len() - 1) =~= label@);
        assert(prefix[prefix.len() - 1] == hb@[plen - 1]);
    }
    if slice_has_byte(label, 0x2e) {
        return None;
    }
    Some((1, cb.len()))
}

/// The best host score of a route for a canonical request host.
pub fn host_match_score(hosts: &Vec<String>, host: &str) -> (r: Option<(u8, usize)>)
    ensures
        match r {
            Some(s) => host_score_spec(hosts@, utf8(host@)) == Some((s.0 as int, s.1 as int)),
            None => host_score_spec(hosts@, utf8(host@)) is None,
        },
{
    if hosts.len() == 0 {
        return Some((0, 0));
    }
    let mut best: Option<(u8, usize)> = None;
    let mut i: usize = 0;
    assert(hosts@.take(0) =~= Seq::<String>::empty());
    while i < hosts.len()
        invariant
            i <= hosts@.len(),
            match best {
                Some(s) => best_host_score(hosts@.take(i as int), utf8(host@)) == Some(
                    (s.0 as int, s.1 as int),
                ),
                None => best_host_score(hosts@.take(i as int), utf8(host@)) is None,
            },
        decreases hosts@.len() - i,
    {
        assert(hosts@.take(i + 1).drop_last() =~= hosts@.take(i as int));
        assert(hosts@.take(i + 1).last() == hosts@[i as int]);
        match candidate_score(hosts[i].as_str(), host) {
            Some(s) => {
                best = match best {
                    None => Some(s),
                    Some(b) => if s.0 > b.0 || (s.0 == b.0 && s.1 > b.1) {
                        Some(s)
                    } else {
                        Some(b)
                    },
                };
            },
            None => {},
        }
        i += 1;
    }
    assert(hosts@.take(hosts@.len() as int) =~= hosts@);
    best
}

/// A path prefix covers a path: `/`, the path itself, or a segment prefix.
pub open spec fn prefix_covers(p: Seq<u8>, path: Seq<u8>) -> bool {
    p == seq![0x2fu8] || path == p || (crate::text::starts_with(path, p) && path.len() > p.len()
        && path[p.len() as int] == 0x2f)
}

/// Longest covering prefix length, if any prefix covers the path.
pub open spec fn best_prefix_len(prefixes: Seq<String>, path: Seq<u8>) -> Option<int>
    decreases prefixes.len(),
{
    if prefixes.len() == 0 {
        None
    } else {
        let rest = best_prefix_len(prefixes.drop_last(), path);
        let p = utf8(prefixes.last()@);
        if prefix_covers(p, path) {
            match rest {
                Some(r) => if p.len() > r {
                    Some(p.len() as int)
                } else {
                    Some(r)
                },
                None => Some(p.len() as int),
            }
        } else {
            rest
        }
    }
}

/// A route's path score: (2, length) for an exact path, (1, length) for the
/// longest covering prefix, (0, 0) without path matchers.
pub open spec fn path_score_spec(r: RouteConfig, path: Seq<u8>) -> Option<(int, int)> {
    if exists|i: int| 0 <= i < r.paths@.len() && utf8((#[trigger] r.paths@[i])@) == path {
        Some((2, path.len() as int))
    } else if best_prefix_len(r.path_prefixes@, path) is Some {
        Some((1, best_prefix_len(r.path_prefixes@, path)->0))
    } else if r.paths@.len() == 0 && r.path_prefixes@.len() == 0 {
        Some((0, 0))
    } else {
        None
    }
}

fn covers(p: &str, path: &str) -> (r: bool)
    ensures
        r == prefix_covers(utf8(p@), utf8(path@)),
{
    let pb = p.as_bytes();
    let b = path.as_bytes();
    let root: [u8; 1] = [0x2f];
    assert(root@ =~= seq![0x2fu8]);
    crate::text::slice_eq(pb, root.as_slice()) || crate::text::slice_eq(b, pb) || (
    crate::text::slice_starts_with(b, pb) && b.len() > pb.len() && b[pb.len()] == 0x2f)
}

/// The path score of a route for a request path.
pub fn path_match_score(route: &RouteConfig, path: &str) -> (r: Option<(u8, usize)>)
    ensures
        match r {
            Some(s) => path_score_spec(*route, utf8(path@)) == Some((s.0 as int, s.1 as int)),
            None => path_score_spec(*route, utf8(path@)) is None,
        },
{
    let mut i: usize = 0;
    while i < route.paths.len()
        invariant
            i <= route.paths@.len(),
            forall|k: int| 0 <= k < i ==> utf8((#[trigger] route.paths@[k])@) != utf8(path@),
        decreases route.paths@.len() - i,
    {
        if crate::text::slice_eq(route.paths[i].as_str().as_bytes(), path.as_bytes()) {
            return Some((2, path.as_bytes().len()));
        }
        i += 1;
    }
    let prefixes = &route.path_prefixes;
    let mut best: Option<usize> = None;
    let mut i: usize = 0;
    assert(prefixes@.take(0) =~= Seq::<String>::empty());
    while i < prefixes.len()
        invariant
            *prefixes == route.path_prefixes,
            i <= prefixes@.len(),
            match best {
                Some(b) => best_prefix_len(prefixes@.take(i as int), utf8(path@)) == Some(b as int),
                None => best_prefix_len(prefixes@.take(i as int), utf8(path@)) is None,
            },
        decreases prefixes@.len() - i,
    {
        assert(prefixes@.take(i + 1).drop_last() =~= prefixes@.take(i as int));
        assert(prefixes@.take(i + 1).last() == prefixes@[i as int]);
        let p = prefixes[i].as_str();
        if covers(p, path) {
            let n = p.as_bytes().len();
            best = match best {
                Some(b) => if n > b {
                    Some(n)
                } else {
                    Some(b)
                },
                None => Some(n),
            };
        }
        i += 1;
    }
    assert(prefixes@.take(prefixes@.len() as int) =~= prefixes@);
    match best {
        Some(n) => Some((1, n)),
        None => if route.paths.len() == 0 && route.path_prefixes.len() == 0 {
            Some((0, 0))
        } else {
            None
        },
    }
}


/// What the request rules read of a request: its method, protocol, target
/// and header fields in order, names lowercase as `http::HeaderMap` stores
/// them.
pub struct RequestFacts {
    /// Method text.
    pub method: String,
    /// The request arrived over HTTP/2.
    pub http2: bool,
    /// Scheme of the request target, if any.
    pub scheme: Option<String>,
    /// Authority of the request target, if any.
    pub authority: Option<crate::web::AuthorityParts>,
    /// Path of the request target.
    pub path: String,
    /// Header fields in order.
    pub headers: Vec<(String, Vec<u8>)>,
}

/// The value of the first header field named `name`.
pub open spec fn first_header(hs: Seq<(String, Vec<u8>)>, name: Seq<char>) -> Option<Seq<u8>>
    decreases hs.len(),
{
    if hs.len() == 0 {
        None
    } else if hs[0].0@ == name {
        Some(hs[0].1@)
    } else {
        first_header(hs.drop_first(), name)
    }
}

/// Bytes that `http::HeaderValue::to_str` accepts: visible ASCII and tab.
pub open spec fn visible_ascii(b: Seq<u8>) -> bool {
    forall|i: int| 0 <= i < b.len() ==> (32 <= #[trigger] b[i] < 127 || b[i] == 9)
}

/// A header predicate holds: a value predicate needs the first field to be
/// visible ASCII equal to it, a presence predicate any field.
pub open spec fn predicate_holds(req: RequestFacts, h: crate::schema::HeaderMatch) -> bool {
    match h.value {
        Some(expected) => match first_header(req.headers@, h.name@) {
            Some(v) => visible_ascii(v) && v == utf8(expected@),
            None => false,
        },
        None => first_header(req.headers@, h.name@) is Some,
    }
}

/// The ranking of a matching route, compared field by field.
#[derive(Clone, Copy, Debug, PartialEq, Eq, Structural)]
pub struct RouteScore {
    pub specific: bool,
    pub priority: i32,
    pub host_kind: u8,
    pub host_len: usize,
    pub path_kind: u8,
    pub path_len: usize,
    pub method_specific: bool,
    pub method_rank: usize,
    pub header_count: usize,
    pub exact_headers: usize,
}

/// The number of predicates with a value.
pub open spec fn exact_header_count(hs: Seq<crate::schema::HeaderMatch>) -> int
    decreases hs.len(),
{
    if hs.len() == 0 {
        0
    } else {
        exact_header_count(hs.drop_last()) + if hs.last().value is Some {
            1int
        } else {
            0int
        }
    }
}

/// A route's score for a request, or `None` when it does not match: default
/// routes score lowest; others need matching hosts, paths, method and header
/// predicates.
pub open spec fn route_score_spec(
    route: RouteConfig,
    req: RequestFacts,
    host: Seq<u8>,
    path: Seq<u8>,
) -> Option<RouteScore> {
    if route.default {
        Some(
            RouteScore {
                specific: false,
                priority: 0,
                host_kind: 0,
                host_len: 0,
                path_kind: 0,
                path_len: 0,
                method_specific: false,
                method_rank: 0,
                header_count: 0,
                exact_headers: 0,
            },
        )
    } else if host_score_spec(route.hosts@, host) is None || path_score_spec(route, path) is None {
        None
    } else if route.methods@.len() != 0 && !crate::checks::contains_string(
        route.methods@,
        req.method@,
    ) {
        None
    } else if !(forall|k: int|
        0 <= k < route.headers@.len() ==> predicate_holds(req, #[trigger] route.headers@[k])) {
        None
    } else {
        let hs = host_score_spec(route.hosts@, host)->0;
        let ps = path_score_spec(route, path)->0;
        let specific_methods = route.methods@.len() != 0;
        Some(
            RouteScore {
                specific: true,
                priority: route.priority,
                host_kind: hs.0 as u8,
                host_len: hs.1 as usize,
                path_kind: ps.0 as u8,
                path_len: ps.1 as usize,
                method_specific: specific_methods,
                method_rank: if specific_methods {
                    (usize::MAX - route.methods@.len()) as usize
                } else {
                    0
                },
                header_count: route.headers@.len() as usize,
                exact_headers: exact_header_count(route.headers@) as usize,
            },
        )
    }
}

pub fn header_value<'a>(hs: &'a Vec<(String, Vec<u8>)>, name: &str) -> (r: Option<&'a Vec<u8>>)
    ensures
        match r {
            Some(v) => first_header(hs@, name@) == Some(v@),
            None => first_header(hs@, name@) is None,
        },
{
    let mut i: usize = 0;
    assert(hs@.skip(0) =~= hs@);
    while i < hs.len()
        invariant
            i <= hs@.len(),
            first_header(hs@, name@) == first_header(hs@.skip(i as int), name@),
        decreases hs@.len() - i,
    {
        assert(hs@.skip(i as int).drop_first() =~= hs@.skip(i + 1));
        assert(hs@.skip(i as int)[0] == hs@[i as int]);
        if str_eq(hs[i].0.as_str(), name) {
            return Some(&hs[i].1);
        }
        i += 1;
    }
    assert(hs@.skip(i as int).len() == 0);
    None
}

pub fn bytes_visible_ascii(b: &[u8]) -> (r: bool)
    ensures
        r == visible_ascii(b@),
{
    let mut i: usize = 0;
    while i < b.len()
        invariant
            i <= b@.len(),
            forall|k: int| 0 <= k < i ==> (32 <= #[trigger] b@[k] < 127 || b@[k] == 9),
        decreases b@.len() - i,
    {
        if !((32 <= b[i] && b[i] < 127) || b[i] == 9) {
            return false;
        }
        i += 1;
    }
    true
}

fn predicate_matches(req: &RequestFacts, h: &crate::schema::HeaderMatch) -> (r: bool)
    ensures
        r == predicate_holds(*req, *h),
{
    match &h.value {
        Some(expected) => match header_value(&req.headers, h.name.as_str()) {
            Some(v) => bytes_visible_ascii(v.as_slice()) && crate::text::slice_eq(
                v.as_slice(),
                expected.as_str().as_bytes(),
            ),
            None => false,
        },
        None => header_value(&req.headers, h.name.as_str()).is_some(),
    }
}

/// Scores a route for a request with a canonical host and path.
pub fn route_match_score(route: &RouteConfig, request: &RequestFacts, host: &str, path: &str) -> (r:
    Option<RouteScore>)
    ensures
        r == route_score_spec(*route, *request, utf8(host@), utf8(path@)),
{
    if route.default {
        return Some(
            RouteScore {
                specific: false,
                priority: 0,
                host_kind: 0,
                host_len: 0,
                path_kind: 0,
                path_len: 0,
                method_specific: false,
                method_rank: 0,
                header_count: 0,
                exact_headers: 0,
            },
        );
    }
    let (host_kind, host_len) = match host_match_score(&route.hosts, host) {
        Some(s) => s,
        None => {
            return None;
        },
    };
    let (path_kind, path_len) = match path_match_score(route, path) {
        Some(s) => s,
        None => {
            return None;
        },
    };
    let method_specific = route.methods.len() != 0;
    if method_specific && !crate::checks::vec_contains_str(&route.methods, request.method.as_str()) {
        return None;
    }
    let mut k: usize = 0;
    while k < route.headers.len()
        invariant
            !route.default,
            host_score_spec(route.hosts@, utf8(host@)) is Some,
            path_score_spec(*route, utf8(path@)) is Some,
            !(route.methods@.len() != 0 && !crate::checks::contains_string(
                route.methods@,
                request.method@,
            )),
            k <= route.headers@.len(),
            forall|m: int| 0 <= m < k ==> predicate_holds(*request, #[trigger] route.headers@[m]),
        decreases route.headers@.len() - k,
    {
        if !predicate_matches(request, &route.headers[k]) {
            return None;
        }
        k += 1;
    }
    let mut exact: usize = 0;
    let mut k: usize = 0;
    assert(route.headers@.take(0) =~= Seq::<crate::schema::HeaderMatch>::empty());
    while k < route.headers.len()
        invariant
            k <= route.headers@.len(),
            exact == exact_header_count(route.headers@.take(k as int)),
            exact <= k,
        decreases route.headers@.len() - k,
    {
        assert(route.headers@.take(k + 1).drop_last() =~= route.headers@.take(k as int));
        if route.headers[k].value.is_some() {
            exact += 1;
        }
        k += 1;
    }
    assert(route.headers@.take(route.headers@.len() as int) =~= route.headers@);
    Some(
        RouteScore {
            specific: true,
            priority: route.priority,
            host_kind,
            host_len,
            path_kind,
            path_len,
            method_specific,
            method_rank: if method_specific {
                usize::MAX - route.methods.len()
            } else {
                0
            },
            header_count: route.headers.len(),
            exact_headers: exact,
        },
    )
}

/// Why a request path cannot be routed.
#[derive(Clone, Copy, Debug, PartialEq, Eq, Structural)]
pub enum PathError {
    /// The request target is longer than allowed.
    TooLong,
    /// The path is not canonicalizable.
    Invalid,
}

/// The new path-and-query of a request whose path is not canonical yet: the
/// canonical path, then `?` and the query when there is one.
pub open spec fn rewritten_target(canonical: Seq<u8>, query: Option<Seq<u8>>) -> Seq<u8> {
    match query {
        Some(q) => canonical + seq![0x3fu8] + q,
        None => canonical,
    }
}

/// Checks the request-target length and canonicalizes the path: `Ok(None)`
/// when the path is already canonical, `Ok(Some(target))` with the new
/// path-and-query otherwise.
pub fn canonicalize_request_path(
    path: &str,
    query: Option<&str>,
    target_len: usize,
    max_target_bytes: usize,
) -> (r: Result<Option<String>, PathError>)
    ensures
        target_len > max_target_bytes ==> r == Err::<Option<String>, PathError>(PathError::TooLong),
        target_len <= max_target_bytes ==> match canonical_request_path(utf8(path@)) {
            None => r == Err::<Option<String>, PathError>(PathError::Invalid),
            Some(c) => if c == utf8(path@) {
                r matches Ok(None)
            } else {
                r matches Ok(Some(t)) && utf8(t@) == rewritten_target(
                    c,
                    match query {
                        Some(q) => Some(utf8(q@)),
                        None => None,
                    },
                )
            },
        },
{
    if target_len > max_target_bytes {
        return Err(PathError::TooLong);
    }
    let canonical = match canonical_path(path) {
        Ok(c) => c,
        Err(()) => {
            return Err(PathError::Invalid);
        },
    };
    if str_eq(canonical.as_str(), path) {
        return Ok(None);
    }
    proof {
        vstd::utf8::encode_utf8_decode_utf8(canonical@);
        vstd::utf8::encode_utf8_decode_utf8(path@);
    }
    match query {
        Some(q) => {
            let mut t = canonical;
            t.append("?");
            t.append(q);
            proof {
                reveal_strlit("?");
                lemma_utf8_concat(canonical@, "?"@);
                lemma_utf8_concat(canonical@ + "?"@, q@);
                assert("?"@ =~= seq!['?']);
                assert(vstd::utf8::is_ascii_chars("?"@));
                vstd::utf8::is_ascii_chars_encode_utf8("?"@);
                assert(utf8("?"@) =~= seq![0x3fu8]);
            }
            Ok(Some(t))
        },
        None => Ok(Some(canonical)),
    }
}

/// The UTF-8 encoding of a concatenation is the concatenation of the
/// encodings.
pub proof fn lemma_utf8_concat(a: Seq<char>, b: Seq<char>)
    ensures
        utf8(a + b) == utf8(a) + utf8(b),
    decreases a.len(),
{
    if a.len() == 0 {
        assert(a + b =~= b);
        assert(utf8(a) =~= Seq::<u8>::empty());
        assert(utf8(a) + utf8(b) =~= utf8(b));
    } else {
        assert((a + b).drop_first() =~= a.drop_first() + b);
        assert((a + b)[0] == a[0]);
        lemma_utf8_concat(a.drop_first(), b);
        assert(utf8(a + b) =~= utf8(a) + utf8(b));
    }
}


/// A path prefix `p` other than `/` covers only `p` itself and the paths
/// that continue with `/` right after `p`. For a route whose only path
/// matcher is `p`, the path score is `(1, |p|)` on exactly those paths and
/// there is none on any other: `/api` scores `/api` and `/api/x` but not
/// `/apiary`.
pub proof fn lemma_prefix_covers_whole_segments(r: RouteConfig, path: Seq<u8>)
    requires
        r.paths@.len() == 0,
        r.path_prefixes@.len() == 1,
        utf8(r.path_prefixes@[0]@) != seq![0x2fu8],
    ensures
        ({
            let p = utf8(r.path_prefixes@[0]@);
            path_score_spec(r, path) == if path == p || (path.len() > p.len() && path.subrange(
                0,
                p.len() as int,
            ) == p && path[p.len() as int] == 0x2f) {
                Some((1int, p.len() as int))
            } else {
                None
            }
        }),
{
    let p = utf8(r.path_prefixes@[0]@);
    assert(r.path_prefixes@.drop_last().len() == 0);
    assert(r.path_prefixes@.last() == r.path_prefixes@[0]);
    assert(best_prefix_len(r.path_prefixes@.drop_last(), path) is None);
}

/// A non-default route whose only path matcher is a prefix `p` other than
/// `/` matches a request only on `p` itself or on a path continuing with
/// `/` after `p`.
pub proof fn lemma_route_prefix_match_is_segment_bounded(
    r: RouteConfig,
    req: RequestFacts,
    host: Seq<u8>,
    path: Seq<u8>,
)
    requires
        !r.default,
        r.paths@.len() == 0,
        r.path_prefixes@.len() == 1,
        utf8(r.path_prefixes@[0]@) != seq![0x2fu8],
        route_score_spec(r, req, host, path) is Some,
    ensures
        ({
            let p = utf8(r.path_prefixes@[0]@);
            path == p || (path.len() > p.len() && path.subrange(0, p.len() as int) == p
                && path[p.len() as int] == 0x2f)
        }),
{
    lemma_prefix_covers_whole_segments(r, path);
}

/// A wildcard host `*.S` scores a host other than itself only when that
/// host is a label without a dot, then `.`, then `S`, and the score is then
/// `(1, |*.S|)`: `*.example.test` scores `api.example.test` but not
/// `a.b.example.test` nor `example.test`.
pub proof fn lemma_wildcard_covers_one_label(s: Seq<u8>, h: Seq<u8>)
    requires
        h != seq![0x2au8, 0x2eu8] + s,
    ensures
        host_candidate_score(seq![0x2au8, 0x2eu8] + s, h) == if one_label_then(h, s) {
            Some((1int, s.len() as int + 2))
        } else {
            None
        },
{
    let c = seq![0x2au8, 0x2eu8] + s;
    assert(c.subrange(0, 2) =~= seq![0x2au8, 0x2eu8]);
    assert(c.subrange(2, c.len() as int) =~= s);
    assert(crate::text::starts_with(c, seq![0x2au8, 0x2eu8]));
    let n = h.len() - s.len();
    if one_label_then(h, s) {
        assert(crate::text::ends_with(h, s));
        let prefix = h.subrange(0, n);
        assert(prefix[prefix.len() - 1] == h[n - 1]);
        let label = prefix.subrange(0, prefix.len() - 1);
        assert forall|i: int| 0 <= i < label.len() implies #[trigger] label[i] != 0x2e by {
            assert(label[i] == h[i]);
        }
        assert(!has_byte(label, 0x2e));
    } else {
        if crate::text::ends_with(h, s) && n >= 0 {
            let prefix = h.subrange(0, n);
            if prefix.len() >= 1 && prefix[prefix.len() - 1] == 0x2e && !has_byte(
                prefix.subrange(0, prefix.len() - 1),
                0x2e,
            ) {
                assert(h[n - 1] == prefix[prefix.len() - 1]);
                let label = prefix.subrange(0, prefix.len() - 1);
                assert forall|i: int| 0 <= i < n - 1 implies #[trigger] h[i] != 0x2e by {
                    assert(label[i] == h[i]);
                    if h[i] == 0x2e {
                        assert(has_byte(label, 0x2e));
                    }
                }
                assert(one_label_then(h, s));
            }
        }
    }
}

/// `h` is a label without a dot, then `.`, then `s`.
pub open spec fn one_label_then(h: Seq<u8>, s: Seq<u8>) -> bool {
    &&& h.len() >= s.len() + 1
    &&& h[h.len() - s.len() - 1] == 0x2e
    &&& h.subrange(h.len() - s.len(), h.len() as int) == s
    &&& forall|i: int| 0 <= i < h.len() - s.len() - 1 ==> h[i] != 0x2e
}

/// A route whose only host is the wildcard `*.S` has a host score on a
/// host other than `*.S` only when that host is a label without a dot, then
/// `.`, then `S`.
pub proof fn lemma_wildcard_route_host_score(hosts: Seq<String>, s: Seq<u8>, h: Seq<u8>)
    requires
        hosts.len() == 1,
        utf8(hosts[0]@) == seq![0x2au8, 0x2eu8] + s,
        h != seq![0x2au8, 0x2eu8] + s,
    ensures
        host_score_spec(hosts, h) is Some <==> one_label_then(h, s),
{
    lemma_wildcard_covers_one_label(s, h);
    assert(hosts.drop_last().len() == 0);
    assert(best_host_score(hosts.drop_last(), h) is None);
    assert(hosts.last() == hosts[0]);
    assert(best_host_score(hosts, h) == host_candidate_score(utf8(hosts[0]@), h));
}


/// `p` covers `path` as a whole-segment prefix: `p` is `/`, or the path is
/// `p`, or the path continues with `/` right after `p`.
pub open spec fn covers_segments(p: Seq<u8>, path: Seq<u8>) -> bool {
    ||| p == seq![0x2fu8]
    ||| path == p
    ||| (path.len() > p.len() && path.subrange(0, p.len() as int) == p && path[p.len() as int] == 0x2f)
}

proof fn lemma_prefix_covers_is_segment(p: Seq<u8>, path: Seq<u8>)
    ensures
        prefix_covers(p, path) <==> covers_segments(p, path),
{
}

proof fn lemma_best_prefix(prefixes: Seq<String>, path: Seq<u8>)
    ensures
        match best_prefix_len(prefixes, path) {
            Some(n) => (exists|k: int|
                0 <= k < prefixes.len() && utf8((#[trigger] prefixes[k])@).len() == n && covers_segments(
                    utf8(prefixes[k]@),
                    path,
                )) && forall|k: int|
                0 <= k < prefixes.len() && covers_segments(utf8((#[trigger] prefixes[k])@), path)
                    ==> utf8(prefixes[k]@).len() <= n,
            None => forall|k: int|
                0 <= k < prefixes.len() ==> !covers_segments(utf8((#[trigger] prefixes[k])@), path),
        },
    decreases prefixes.len(),
{
    if prefixes.len() > 0 {
        let d = prefixes.drop_last();
        lemma_best_prefix(d, path);
        let last = prefixes.len() - 1;
        assert(prefixes[last] == prefixes.last());
        lemma_prefix_covers_is_segment(utf8(prefixes.last()@), path);
        assert forall|k: int| 0 <= k < d.len() implies prefixes[k] == d[k] by {}
        match best_prefix_len(prefixes, path) {
            Some(n) => {
                if covers_segments(utf8(prefixes.last()@), path) && best_prefix_len(prefixes, path)
                    == Some(utf8(prefixes.last()@).len() as int) {
                    assert(utf8(prefixes[last]@).len() == n);
                } else {
                    let k = choose|k: int|
                        0 <= k < d.len() && utf8((#[trigger] d[k])@).len() == n && covers_segments(
                            utf8(d[k]@),
                            path,
                        );
                    assert(prefixes[k] == d[k]);
                }
                assert forall|k: int|
                    0 <= k < prefixes.len() && covers_segments(utf8((#[trigger] prefixes[k])@), path)
                        implies utf8(prefixes[k]@).len() <= n by {
                    if k < d.len() {
                        assert(covers_segments(utf8(d[k]@), path));
                    }
                }
            },
            None => {
                assert forall|k: int| 0 <= k < prefixes.len() implies !covers_segments(
                    utf8((#[trigger] prefixes[k])@),
                    path,
                ) by {
                    if k < d.len() {
                        assert(prefixes[k] == d[k]);
                    }
                }
            },
        }
    }
}

/// What a route's path score means, for any route and path: `(2, |path|)`
/// exactly when an exact path equals it; otherwise `(1, n)` when some
/// prefix covers it by whole segments, `n` being the length of the longest
/// such prefix; otherwise `(0, 0)` for a route without path matchers, and
/// no score at all for any other.
pub proof fn lemma_path_score_meaning(r: RouteConfig, path: Seq<u8>)
    ensures
        match path_score_spec(r, path) {
            Some((kind, n)) => if kind == 2 {
                n == path.len() && exists|i: int|
                    0 <= i < r.paths@.len() && utf8((#[trigger] r.paths@[i])@) == path
            } else if kind == 1 {
                &&& forall|i: int| 0 <= i < r.paths@.len() ==> utf8((#[trigger] r.paths@[i])@) != path
                &&& exists|k: int|
                    0 <= k < r.path_prefixes@.len() && utf8((#[trigger] r.path_prefixes@[k])@).len()
                        == n && covers_segments(utf8(r.path_prefixes@[k]@), path)
                &&& forall|k: int|
                    0 <= k < r.path_prefixes@.len() && covers_segments(
                        utf8((#[trigger] r.path_prefixes@[k])@),
                        path,
                    ) ==> utf8(r.path_prefixes@[k]@).len() <= n
            } else {
                kind == 0 && n == 0 && r.paths@.len() == 0 && r.path_prefixes@.len() == 0
            },
            None => {
                &&& forall|i: int| 0 <= i < r.paths@.len() ==> utf8((#[trigger] r.paths@[i])@) != path
                &&& forall|k: int|
                    0 <= k < r.path_prefixes@.len() ==> !covers_segments(
                        utf8((#[trigger] r.path_prefixes@[k])@),
                        path,
                    )
                &&& (r.paths@.len() != 0 || r.path_prefixes@.len() != 0)
            },
        },
{
    lemma_best_prefix(r.path_prefixes@, path);
}


/// Wildcard host `c`, `*.` and a suffix, covers `h`: `h` is a label without
/// a dot, then `.`, then the suffix.
pub open spec fn wildcard_covers(c: Seq<u8>, h: Seq<u8>) -> bool {
    c.len() >= 2 && c[0] == 0x2a && c[1] == 0x2e && one_label_then(h, c.subrange(2, c.len() as int))
}

/// One configured host scores `(2, |c|)` on itself, `(1, |c|)` on a host a
/// wildcard covers, and nothing otherwise.
pub proof fn lemma_candidate_meaning(c: Seq<u8>, h: Seq<u8>)
    ensures
        host_candidate_score(c, h) == if c == h {
            Some((2int, c.len() as int))
        } else if wildcard_covers(c, h) {
            Some((1int, c.len() as int))
        } else {
            None
        },
{
    if c != h {
        if c.len() >= 2 && c[0] == 0x2a && c[1] == 0x2e {
            let s = c.subrange(2, c.len() as int);
            assert(c =~= seq![0x2au8, 0x2eu8] + s);
            lemma_wildcard_covers_one_label(s, h);
        } else {
            if crate::text::starts_with(c, seq![0x2au8, 0x2eu8]) {
                assert(c[0] == c.subrange(0, 2)[0]);
                assert(c[1] == c.subrange(0, 2)[1]);
            }
        }
    }
}

proof fn lemma_best_host(hosts: Seq<String>, h: Seq<u8>)
    ensures
        match best_host_score(hosts, h) {
            Some((kind, n)) => if kind == 2 {
                n == h.len() && exists|i: int| 0 <= i < hosts.len() && utf8((#[trigger] hosts[i])@) == h
            } else {
                &&& kind == 1
                &&& forall|i: int| 0 <= i < hosts.len() ==> utf8((#[trigger] hosts[i])@) != h
                &&& exists|i: int|
                    0 <= i < hosts.len() && utf8((#[trigger] hosts[i])@).len() == n && wildcard_covers(
                        utf8(hosts[i]@),
                        h,
                    )
                &&& forall|i: int|
                    0 <= i < hosts.len() && wildcard_covers(utf8((#[trigger] hosts[i])@), h)
                        ==> utf8(hosts[i]@).len() <= n
            },
            None => forall|i: int|
                0 <= i < hosts.len() ==> utf8((#[trigger] hosts[i])@) != h && !wildcard_covers(
                    utf8(hosts[i]@),
                    h,
                ),
        },
    decreases hosts.len(),
{
    if hosts.len() > 0 {
        let d = hosts.drop_last();
        let last = hosts.len() - 1;
        lemma_best_host(d, h);
        assert(hosts[last] == hosts.last());
        lemma_candidate_meaning(utf8(hosts.last()@), h);
        assert forall|i: int| 0 <= i < d.len() implies hosts[i] == d[i] by {}
        let c = utf8(hosts.last()@);
        match best_host_score(d, h) {
            None => {
                assert forall|i: int| 0 <= i < hosts.len() && i != last implies utf8((#[trigger] hosts[i])@)
                    != h && !wildcard_covers(utf8(hosts[i]@), h) by {
                    assert(hosts[i] == d[i]);
                }
                if c == h {
                    assert(utf8(hosts[last]@) == h);
                } else if wildcard_covers(c, h) {
                    assert(utf8(hosts[last]@).len() == c.len());
                }
            },
            Some((dk, dn)) => {
                if dk == 2 {
                    let i = choose|i: int| 0 <= i < d.len() && utf8((#[trigger] d[i])@) == h;
                    assert(hosts[i] == d[i]);
                    if c == h {
                        assert(utf8(hosts[last]@) == h);
                    }
                } else {
                    let i = choose|i: int|
                        0 <= i < d.len() && utf8((#[trigger] d[i])@).len() == dn && wildcard_covers(
                            utf8(d[i]@),
                            h,
                        );
                    assert(hosts[i] == d[i]);
                    if c == h {
                        assert(utf8(hosts[last]@) == h);
                    } else {
                        assert forall|j: int| 0 <= j < hosts.len() implies utf8((#[trigger] hosts[j])@) != h by {
                            if j < d.len() {
                                assert(hosts[j] == d[j]);
                            }
                        }
                        assert forall|j: int|
                            0 <= j < hosts.len() && wildcard_covers(utf8((#[trigger] hosts[j])@), h)
                                implies utf8(hosts[j]@).len() <= (best_host_score(hosts, h)->0).1 by {
                            if j < d.len() {
                                assert(hosts[j] == d[j]);
                                assert(wildcard_covers(utf8(d[j]@), h));
                            }
                        }
                        if wildcard_covers(c, h) && c.len() > dn {
                            assert(utf8(hosts[last]@).len() == c.len());
                        }
                    }
                }
            },
        }
    }
}

/// What a route's host score means, for any hosts and request host: a
/// route without hosts scores `(0, 0)`; otherwise `(2, |h|)` exactly when a
/// host equals `h`; else `(1, n)` when some wildcard covers `h`, `n` being
/// the length of the longest such wildcard; else no score.
pub proof fn lemma_host_score_meaning(hosts: Seq<String>, h: Seq<u8>)
    ensures
        hosts.len() == 0 ==> host_score_spec(hosts, h) == Some((0int, 0int)),
        hosts.len() != 0 ==> match host_score_spec(hosts, h) {
            Some((kind, n)) => if kind == 2 {
                n == h.len() && exists|i: int| 0 <= i < hosts.len() && utf8((#[trigger] hosts[i])@) == h
            } else {
                &&& kind == 1
                &&& forall|i: int| 0 <= i < hosts.len() ==> utf8((#[trigger] hosts[i])@) != h
                &&& exists|i: int|
                    0 <= i < hosts.len() && utf8((#[trigger] hosts[i])@).len() == n && wildcard_covers(
                        utf8(hosts[i]@),
                        h,
                    )
                &&& forall|i: int|
                    0 <= i < hosts.len() && wildcard_covers(utf8((#[trigger] hosts[i])@), h)
                        ==> utf8(hosts[i]@).len() <= n
            },
            None => forall|i: int|
                0 <= i < hosts.len() ==> utf8((#[trigger] hosts[i])@) != h && !wildcard_covers(
                    utf8(hosts[i]@),
                    h,
                ),
        },
{
    lemma_best_host(hosts, h);
}

} // verus!
