//! Response-compression negotiation: `Accept-Encoding` qualities, the choice
//! of an encoding, and comma-separated header token lists.

use vstd::prelude::*;
use crate::text::{trimmed, skip_ws, back_ws, ci_eq, chars_ci_eq, chars_trim, str_chars};
use crate::middleware::{is_digit_char, digits_value};
use crate::schema::{CompressionEncoding, Config, MiddlewareConfig, RouteConfig};
use crate::middleware::without_plus;
use crate::route::visible_ascii;

verus! {

/// Position of the first `sep` in `c[i..hi]`, or `hi`.
pub open spec fn find_upto(c: Seq<char>, sep: char, i: int, hi: int) -> int
    decreases hi - i,
{
    if i >= hi {
        hi
    } else if c[i] == sep {
        i
    } else {
        find_upto(c, sep, i + 1, hi)
    }
}

pub proof fn lemma_find_upto(c: Seq<char>, sep: char, i: int, hi: int)
    requires
        i <= hi,
    ensures
        i <= find_upto(c, sep, i, hi) <= hi,
        forall|k: int| i <= k < find_upto(c, sep, i, hi) ==> c[k] != sep,
        find_upto(c, sep, i, hi) < hi ==> c[find_upto(c, sep, i, hi)] == sep,
    decreases hi - i,
{
    if i < hi && c[i] != sep {
        lemma_find_upto(c, sep, i + 1, hi);
    }
}

/// The first `sep` in `c[i..hi]`, or `hi`.
pub fn chars_find_upto(c: &Vec<char>, sep: char, i: usize, hi: usize) -> (r: usize)
    requires
        i <= hi <= c@.len(),
    ensures
        r == find_upto(c@, sep, i as int, hi as int),
        i <= r <= hi,
{
    proof {
        lemma_find_upto(c@, sep, i as int, hi as int);
    }
    let mut j = i;
    while j < hi
        invariant
            i <= j <= hi <= c@.len(),
            find_upto(c@, sep, i as int, hi as int) == find_upto(c@, sep, j as int, hi as int),
        decreases hi - j,
    {
        if c[j] == sep {
            return j;
        }
        j += 1;
    }
    j
}

/// The value of `0.ddd` in thousandths, the digits padded on the right.
pub open spec fn thousandths(d: Seq<char>) -> int {
    if d.len() == 0 {
        0
    } else if d.len() == 1 {
        100 * digits_value(d)
    } else if d.len() == 2 {
        10 * digits_value(d)
    } else {
        digits_value(d)
    }
}

/// An `Accept-Encoding` quality value in thousandths: `0`, `1` with up to
/// three zero decimals, or `0.` followed by at most three digits.
pub open spec fn quality_value(v: Seq<char>) -> Option<u16> {
    if v == seq!['0'] {
        Some(0)
    } else if v == seq!['1'] || v == seq!['1', '.', '0'] || v == seq!['1', '.', '0', '0'] || v
        == seq!['1', '.', '0', '0', '0'] {
        Some(1000)
    } else if v.len() >= 2 && v[0] == '0' && v[1] == '.' && v.len() <= 5 && (forall|k: int|
        2 <= k < v.len() ==> is_digit_char(#[trigger] v[k])) {
        Some(thousandths(v.subrange(2, v.len() as int)) as u16)
    } else {
        None
    }
}

proof fn lemma_literals()
    ensures
        seq!['0'].len() == 1 && seq!['0'][0] == '0',
        seq!['1'].len() == 1 && seq!['1'][0] == '1',
        seq!['1', '.', '0'].len() == 3 && seq!['1', '.', '0'][0] == '1' && seq!['1', '.', '0'][1]
            == '.' && seq!['1', '.', '0'][2] == '0',
        seq!['1', '.', '0', '0'].len() == 4 && seq!['1', '.', '0', '0'][0] == '1' && seq![
            '1',
            '.',
            '0',
            '0',
        ][1] == '.' && seq!['1', '.', '0', '0'][2] == '0' && seq!['1', '.', '0', '0'][3] == '0',
        seq!['1', '.', '0', '0', '0'].len() == 5 && seq!['1', '.', '0', '0', '0'][0] == '1'
            && seq!['1', '.', '0', '0', '0'][1] == '.' && seq!['1', '.', '0', '0', '0'][2] == '0'
            && seq!['1', '.', '0', '0', '0'][3] == '0' && seq!['1', '.', '0', '0', '0'][4] == '0',
{
}

proof fn lemma_digits_bound(d: Seq<char>)
    requires
        forall|k: int| 0 <= k < d.len() ==> is_digit_char(#[trigger] d[k]),
    ensures
        0 <= digits_value(d),
        d.len() == 1 ==> digits_value(d) <= 9,
        d.len() == 2 ==> digits_value(d) <= 99,
        d.len() == 3 ==> digits_value(d) <= 999,
    decreases d.len(),
{
    if d.len() > 0 {
        assert(is_digit_char(d[d.len() - 1]));
        lemma_digits_bound(d.drop_last());
    }
}

/// The quality value of `c[a..b]`.
fn chars_quality(c: &Vec<char>, a: usize, b: usize) -> (r: Option<u16>)
    requires
        a <= b <= c@.len(),
    ensures
        r == quality_value(c@.subrange(a as int, b as int)),
{
    let ghost v = c@.subrange(a as int, b as int);
    proof {
        lemma_literals();
    }
    let n = b - a;
    if n == 0 || n > 5 {
        return None;
    }
    let d0 = c[a];
    assert(v[0] == d0);
    if n == 1 {
        assert(v.len() == 1);
        if d0 == '0' {
            assert(v =~= seq!['0']);
            return Some(0);
        } else if d0 == '1' {
            assert(v =~= seq!['1']);
            return Some(1000);
        }
        return None;
    }
    let d1 = c[a + 1];
    assert(v[1] == d1);
    if d0 == '1' {
        if n < 3 || d1 != '.' {
            return None;
        }
        let d2 = c[a + 2];
        assert(v[2] == d2);
        if d2 != '0' {
            return None;
        }
        if n == 3 {
            assert(v =~= seq!['1', '.', '0']);
            return Some(1000);
        }
        let d3 = c[a + 3];
        assert(v[3] == d3);
        if d3 != '0' {
            return None;
        }
        if n == 4 {
            assert(v =~= seq!['1', '.', '0', '0']);
            return Some(1000);
        }
        let d4 = c[a + 4];
        assert(v[4] == d4);
        if d4 != '0' {
            return None;
        }
        assert(v =~= seq!['1', '.', '0', '0', '0']);
        return Some(1000);
    }
    if d0 != '0' || d1 != '.' {
        return None;
    }
    let mut value: u16 = 0;
    let mut k = a + 2;
    while k < b
        invariant
            a + 2 <= k <= b <= c@.len(),
            b - a <= 5,
            v == c@.subrange(a as int, b as int),
            c@[a as int] == '0',
            c@[a + 1] == '.',
            forall|i: int| a + 2 <= i < k ==> is_digit_char(#[trigger] c@[i]),
            value == digits_value(c@.subrange(a + 2, k as int)),
            value <= 999,
        decreases b - k,
    {
        let d = c[k];
        if !('0' <= d && d <= '9') {
            proof {
                lemma_literals();
                assert(v[0] == '0');
                assert(!is_digit_char(v[k - a]));
            }
            return None;
        }
        proof {
            assert(c@.subrange(a + 2, k + 1).drop_last() =~= c@.subrange(a + 2, k as int));
            assert forall|i: int| 0 <= i < c@.subrange(a + 2, k + 1).len() implies is_digit_char(
                #[trigger] c@.subrange(a + 2, k + 1)[i],
            ) by {
                assert(c@.subrange(a + 2, k + 1)[i] == c@[a + 2 + i]);
            }
            lemma_digits_bound(c@.subrange(a + 2, k + 1));
        }
        value = value * 10 + ((d as u32) - ('0' as u32)) as u16;
        k += 1;
    }
    proof {
        assert(v.subrange(2, v.len() as int) =~= c@.subrange(a + 2, b as int));
        assert forall|i: int| 2 <= i < v.len() implies is_digit_char(#[trigger] v[i]) by {
            assert(v[i] == c@[a + i]);
        }
        assert forall|i: int|
            0 <= i < c@.subrange(a + 2, b as int).len() implies is_digit_char(
            #[trigger] c@.subrange(a + 2, b as int)[i],
        ) by {
            assert(c@.subrange(a + 2, b as int)[i] == c@[a + 2 + i]);
        }
        lemma_digits_bound(c@.subrange(a + 2, b as int));
        lemma_literals();
    }
    let r = if n == 2 {
        0
    } else if n == 3 {
        100 * value
    } else if n == 4 {
        10 * value
    } else {
        value
    };
    Some(r)
}

/// Parses an `Accept-Encoding` quality value into thousandths.
pub fn parse_quality(value: &str) -> (r: Option<u16>)
    ensures
        r == quality_value(value@),
{
    let c = str_chars(value);
    proof {
        assert(c@.subrange(0, c@.len() as int) =~= c@);
    }
    chars_quality(&c, 0, c.len())
}


/// The characters of ASCII bytes.
pub open spec fn ascii_chars(b: Seq<u8>) -> Seq<char> {
    Seq::new(b.len(), |i: int| b[i] as char)
}

/// The characters of a header value of visible ASCII.
pub(crate) fn bytes_chars(b: &Vec<u8>) -> (r: Vec<char>)
    ensures
        r@ == ascii_chars(b@),
{
    let mut out: Vec<char> = Vec::new();
    let mut i: usize = 0;
    while i < b.len()
        invariant
            i <= b@.len(),
            out@ == ascii_chars(b@).subrange(0, i as int),
        decreases b@.len() - i,
    {
        out.push(b[i] as char);
        proof {
            assert(out@ =~= ascii_chars(b@).subrange(0, i + 1));
        }
        i += 1;
    }
    proof {
        assert(out@ =~= ascii_chars(b@));
    }
    out
}

pub(crate) fn bytes_visible(b: &Vec<u8>) -> (r: bool)
    ensures
        r == visible_ascii(b@),
{
    let mut i: usize = 0;
    while i < b.len()
        invariant
            i <= b@.len(),
            forall|k: int| 0 <= k < i ==> (32 <= #[trigger] b@[k] < 127 || b@[k] == 9),
        decreases b@.len() - i,
    {
        if !((32 <= b[i] && b[i] < 127) || b[i] == 9) {
            return false;
        }
        i += 1;
    }
    true
}

/// One `;`-parameter `c[p..e]`: `q=<quality>`, keys compared ignoring case.
pub open spec fn param_quality(c: Seq<char>, p: int, e: int) -> Option<u16> {
    let pa = skip_ws(c, p, e);
    let pb = back_ws(c, pa, e);
    let eq = find_upto(c, '=', pa, pb);
    if eq >= pb {
        None
    } else if !ci_eq(trimmed(c, pa, eq), seq!['q']) {
        None
    } else {
        quality_value(trimmed(c, eq + 1, pb))
    }
}

/// The quality the parameters in `c[p..hi]` leave, the last one winning;
/// `None` when one is malformed.
pub open spec fn params_quality(c: Seq<char>, p: int, hi: int, q: u16) -> Option<u16>
    decreases hi - p,
{
    if p > hi {
        Some(q)
    } else {
        let e = find_upto(c, ';', p, hi);
        match param_quality(c, p, e) {
            None => None,
            Some(q2) => if e < hi {
                proof {
                    lemma_find_upto(c, ';', p, hi);
                }
                params_quality(c, e + 1, hi, q2)
            } else {
                Some(q2)
            },
        }
    }
}

/// The quality of the trimmed item `c[a..b]`: one thousand unless a
/// parameter says otherwise.
pub open spec fn item_quality(c: Seq<char>, a: int, b: int) -> Option<u16> {
    let f = find_upto(c, ';', a, b);
    if f < b {
        params_quality(c, f + 1, b, 1000)
    } else {
        Some(1000)
    }
}

/// The coding named by the trimmed item `c[a..b]`.
pub open spec fn item_name(c: Seq<char>, a: int, b: int) -> Seq<char> {
    trimmed(c, a, find_upto(c, ';', a, b))
}

/// What one item does to the exact and wildcard qualities seen so far.
pub open spec fn seen_after(
    name: Seq<char>,
    wanted: Seq<char>,
    q: u16,
    st: (Option<u16>, Option<u16>),
) -> (Option<u16>, Option<u16>) {
    if ci_eq(name, wanted) {
        (Some(q), st.1)
    } else if name == seq!['*'] {
        (st.0, Some(q))
    } else {
        st
    }
}

/// The `,`-separated items of `c` from position `s` on, folded into the
/// qualities seen; `None` once an item is malformed.
pub open spec fn scan_items(
    c: Seq<char>,
    s: int,
    wanted: Seq<char>,
    st: (Option<u16>, Option<u16>),
) -> Option<(Option<u16>, Option<u16>)>
    decreases c.len() - s,
{
    if s < 0 || s > c.len() {
        Some(st)
    } else {
        let e = find_upto(c, ',', s, c.len() as int);
        let a = skip_ws(c, s, e);
        let b = back_ws(c, a, e);
        match item_quality(c, a, b) {
            None => None,
            Some(q) => {
                let next = seen_after(item_name(c, a, b), wanted, q, st);
                if e < c.len() {
                    proof {
                        lemma_find_upto(c, ',', s, c.len() as int);
                    }
                    scan_items(c, e + 1, wanted, next)
                } else {
                    Some(next)
                }
            },
        }
    }
}

/// All `Accept-Encoding` field values in order; a value that is not visible
/// ASCII is skipped, as `HeaderValue::to_str` refuses it.
pub open spec fn scan_values(
    values: Seq<Vec<u8>>,
    wanted: Seq<char>,
    st: (Option<u16>, Option<u16>),
) -> Option<(Option<u16>, Option<u16>)>
    decreases values.len(),
{
    if values.len() == 0 {
        Some(st)
    } else {
        match scan_values(values.drop_last(), wanted, st) {
            None => None,
            Some(seen) => if visible_ascii(values.last()@) {
                scan_items(ascii_chars(values.last()@), 0, wanted, seen)
            } else {
                Some(seen)
            },
        }
    }
}

pub open spec fn coding_name(e: CompressionEncoding) -> Seq<char> {
    match e {
        CompressionEncoding::Gzip => seq!['g', 'z', 'i', 'p'],
        CompressionEncoding::Brotli => seq!['b', 'r'],
    }
}

/// The accepted quality of a coding: the exact entry, else the wildcard,
/// and only when above zero; nothing when the header is malformed.
pub open spec fn coding_quality(values: Seq<Vec<u8>>, e: CompressionEncoding) -> Option<u16> {
    match scan_values(values, coding_name(e), (None, None)) {
        None => None,
        Some(st) => {
            let q = if st.0 is Some {
                st.0
            } else {
                st.1
            };
            if q matches Some(x) && x > 0 {
                q
            } else {
                None
            }
        },
    }
}

fn chars_param_quality(c: &Vec<char>, p: usize, e: usize) -> (r: Option<u16>)
    requires
        p <= e <= c@.len(),
    ensures
        r == param_quality(c@, p as int, e as int),
{
    let (pa, pb) = chars_trim(c, p, e);
    let eq = chars_find_upto(c, '=', pa, pb);
    if eq >= pb {
        return None;
    }
    let (ka, kb) = chars_trim(c, pa, eq);
    let lit_q: [char; 1] = ['q'];
    assert(lit_q@ =~= seq!['q']);
    if !chars_ci_eq(c, ka, kb, lit_q.as_slice()) {
        return None;
    }
    let (va, vb) = chars_trim(c, eq + 1, pb);
    chars_quality(c, va, vb)
}

fn chars_item_quality(c: &Vec<char>, a: usize, b: usize) -> (r: Option<u16>)
    requires
        a <= b <= c@.len(),
    ensures
        r == item_quality(c@, a as int, b as int),
{
    let f = chars_find_upto(c, ';', a, b);
    if f >= b {
        return Some(1000);
    }
    let mut p = f + 1;
    let mut q: u16 = 1000;
    loop
        invariant
            p <= b <= c@.len(),
            item_quality(c@, a as int, b as int) == params_quality(c@, p as int, b as int, q),
        decreases b - p,
    {
        let e = chars_find_upto(c, ';', p, b);
        match chars_param_quality(c, p, e) {
            None => {
                return None;
            },
            Some(q2) => {
                if e >= b {
                    return Some(q2);
                }
                q = q2;
                p = e + 1;
            },
        }
    }
}

/// Folds the items of one value into the qualities seen.
fn scan_value_items(c: &Vec<char>, wanted: &[char], st: (Option<u16>, Option<u16>)) -> (r: Option<
    (Option<u16>, Option<u16>),
>)
    ensures
        r == scan_items(c@, 0, wanted@, st),
{
    let n = c.len();
    let mut s: usize = 0;
    let mut seen = st;
    loop
        invariant
            n == c@.len(),
            s <= n,
            scan_items(c@, 0, wanted@, st) == scan_items(c@, s as int, wanted@, seen),
        decreases n - s,
    {
        let e = chars_find_upto(c, ',', s, n);
        let (a, b) = chars_trim(c, s, e);
        let q = match chars_item_quality(c, a, b) {
            None => {
                return None;
            },
            Some(q) => q,
        };
        let f = chars_find_upto(c, ';', a, b);
        proof {
            lemma_find_upto(c@, ';', a as int, b as int);
        }
        let (na, nb) = chars_trim(c, a, f);
        proof {
            assert(c@.subrange(na as int, nb as int) == item_name(c@, a as int, b as int));
        }
        if chars_ci_eq(c, na, nb, wanted) {
            seen = (Some(q), seen.1);
        } else if nb - na == 1 && c[na] == '*' {
            assert(c@.subrange(na as int, nb as int) =~= seq!['*']);
            seen = (seen.0, Some(q));
        } else {
            proof {
                if c@.subrange(na as int, nb as int) == seq!['*'] {
                    assert(c@.subrange(na as int, nb as int)[0] == '*');
                }
            }
        }
        if e >= n {
            return Some(seen);
        }
        s = e + 1;
    }
}

/// The accepted quality of a coding for the given `Accept-Encoding` values.
pub fn quality(values: &Vec<Vec<u8>>, encoding: CompressionEncoding) -> (r: Option<u16>)
    ensures
        r == coding_quality(values@, encoding),
{
    let gzip: [char; 4] = ['g', 'z', 'i', 'p'];
    let br: [char; 2] = ['b', 'r'];
    assert(gzip@ =~= seq!['g', 'z', 'i', 'p']);
    assert(br@ =~= seq!['b', 'r']);
    let wanted: &[char] = match encoding {
        CompressionEncoding::Gzip => gzip.as_slice(),
        CompressionEncoding::Brotli => br.as_slice(),
    };
    let mut seen: (Option<u16>, Option<u16>) = (None, None);
    let mut i: usize = 0;
    while i < values.len()
        invariant
            i <= values@.len(),
            wanted@ == coding_name(encoding),
            scan_values(values@.subrange(0, i as int), wanted@, (None, None)) == Some(seen),
        decreases values@.len() - i,
    {
        proof {
            assert(values@.subrange(0, i + 1).drop_last() =~= values@.subrange(0, i as int));
        }
        if bytes_visible(&values[i]) {
            let c = bytes_chars(&values[i]);
            match scan_value_items(&c, wanted, seen) {
                None => {
                    proof {
                        lemma_scan_values_stuck(values@, i as int, wanted@);
                    }
                    return None;
                },
                Some(next) => {
                    seen = next;
                },
            }
        }
        i += 1;
    }
    proof {
        assert(values@.subrange(0, values@.len() as int) =~= values@);
    }
    let q = match seen.0 {
        Some(x) => Some(x),
        None => seen.1,
    };
    match q {
        Some(x) => if x > 0 {
            q
        } else {
            None
        },
        None => None,
    }
}

/// Once a prefix of the values is malformed, so are all of them.
proof fn lemma_scan_values_stuck(values: Seq<Vec<u8>>, i: int, wanted: Seq<char>)
    requires
        0 <= i < values.len(),
        scan_values(values.subrange(0, i + 1), wanted, (None, None)) is None,
    ensures
        scan_values(values, wanted, (None, None)) is None,
    decreases values.len() - i,
{
    if i + 1 == values.len() {
        assert(values.subrange(0, i + 1) =~= values);
    } else {
        assert(values.subrange(0, i + 2).drop_last() =~= values.subrange(0, i + 1));
        lemma_scan_values_stuck(values, i + 1, wanted);
    }
}

/// Coding `i` is the one chosen: accepted, and no other accepted coding
/// has a higher quality or, at the same quality, an earlier place.
pub open spec fn preferred_at(values: Seq<Vec<u8>>, encs: Seq<CompressionEncoding>, i: int) -> bool {
    &&& 0 <= i < encs.len()
    &&& coding_quality(values, encs[i]) is Some
    &&& forall|j: int|
        0 <= j < encs.len() && j != i && (#[trigger] coding_quality(values, encs[j])) is Some ==> {
            let qj = coding_quality(values, encs[j])->0;
            let qi = coding_quality(values, encs[i])->0;
            qj < qi || (qj == qi && j > i)
        }
}

/// The configured coding to use: the highest accepted quality, ties going
/// to the earlier configured coding; `None` when none is accepted.
pub fn select_encoding(values: &Vec<Vec<u8>>, encodings: &[CompressionEncoding]) -> (r: Option<
    CompressionEncoding,
>)
    ensures
        r is None <==> forall|i: int|
            0 <= i < encodings@.len() ==> (#[trigger] coding_quality(values@, encodings@[i])) is None,
        r matches Some(e) ==> exists|i: int|
            #[trigger] preferred_at(values@, encodings@, i) && encodings@[i] == e,
{
    let mut best: Option<(usize, u16)> = None;
    let mut i: usize = 0;
    while i < encodings.len()
        invariant
            i <= encodings@.len(),
            match best {
                None => forall|j: int|
                    0 <= j < i ==> (#[trigger] coding_quality(values@, encodings@[j])) is None,
                Some((bi, bq)) => {
                    &&& bi < i
                    &&& coding_quality(values@, encodings@[bi as int]) == Some(bq)
                    &&& forall|j: int|
                        0 <= j < i && j != bi && (#[trigger] coding_quality(
                            values@,
                            encodings@[j],
                        )) is Some ==> {
                            let qj = coding_quality(values@, encodings@[j])->0;
                            qj < bq || (qj == bq && j > bi)
                        }
                },
            },
        decreases encodings@.len() - i,
    {
        let q = quality(values, encodings[i]);
        match q {
            Some(x) => {
                match best {
                    None => {
                        best = Some((i, x));
                    },
                    Some((_, bq)) => {
                        if x > bq {
                            best = Some((i, x));
                        }
                    },
                }
            },
            None => {},
        }
        i += 1;
    }
    match best {
        None => None,
        Some((bi, _)) => {
            assert(preferred_at(values@, encodings@, bi as int));
            Some(encodings[bi])
        },
    }
}

/// Whether position `s` starts a `,`-separated item of `c`.
pub open spec fn item_start(c: Seq<char>, s: int) -> bool {
    0 <= s <= c.len() && (s == 0 || c[s - 1] == ',')
}

/// The trimmed item that starts at `s`.
pub open spec fn list_item(c: Seq<char>, s: int) -> Seq<char> {
    trimmed(c, s, find_upto(c, ',', s, c.len() as int))
}

/// Some item of the list equals `lit`, ignoring ASCII case.
pub open spec fn value_lists_token(c: Seq<char>, lit: Seq<char>) -> bool {
    exists|s: int| #[trigger] item_start(c, s) && ci_eq(list_item(c, s), lit)
}

/// Some field value of visible ASCII lists `lit` as one of its items.
pub open spec fn header_lists_token(values: Seq<Vec<u8>>, lit: Seq<char>) -> bool {
    exists|i: int|
        0 <= i < values.len() && visible_ascii(values[i]@) && #[trigger] value_lists_token(
            ascii_chars(values[i]@),
            lit,
        )
}

fn chars_lists_token(c: &Vec<char>, lit: &[char]) -> (r: bool)
    ensures
        r == value_lists_token(c@, lit@),
{
    let n = c.len();
    let mut s: usize = 0;
    loop
        invariant
            n == c@.len(),
            s <= n,
            item_start(c@, s as int),
            forall|t: int|
                #[trigger] item_start(c@, t) && t < s ==> !ci_eq(list_item(c@, t), lit@),
        decreases n - s,
    {
        let e = chars_find_upto(c, ',', s, n);
        proof {
            lemma_find_upto(c@, ',', s as int, n as int);
        }
        let (a, b) = chars_trim(c, s, e);
        if chars_ci_eq(c, a, b, lit) {
            assert(item_start(c@, s as int) && ci_eq(list_item(c@, s as int), lit@));
            return true;
        }
        assert forall|t: int| s < t <= e implies !#[trigger] item_start(c@, t) by {
            assert(c@[t - 1] != ',');
        }
        if e >= n {
            assert forall|t: int| #[trigger] item_start(c@, t) implies !ci_eq(
                list_item(c@, t),
                lit@,
            ) by {
                if t > s {
                    assert(!item_start(c@, t));
                }
            }
            return false;
        }
        s = e + 1;
    }
}

/// Whether some field value lists `lit` (lowercase) as an item.
pub fn lists_token(values: &Vec<Vec<u8>>, lit: &[char]) -> (r: bool)
    ensures
        r == header_lists_token(values@, lit@),
{
    let mut i: usize = 0;
    while i < values.len()
        invariant
            i <= values@.len(),
            forall|k: int|
                0 <= k < i ==> !(visible_ascii(values@[k]@) && #[trigger] value_lists_token(
                    ascii_chars(values@[k]@),
                    lit@,
                )),
        decreases values@.len() - i,
    {
        if bytes_visible(&values[i]) {
            let c = bytes_chars(&values[i]);
            if chars_lists_token(&c, lit) {
                return true;
            }
        }
        i += 1;
    }
    false
}

pub open spec fn no_transform_lit() -> Seq<char> {
    seq!['n', 'o', '-', 't', 'r', 'a', 'n', 's', 'f', 'o', 'r', 'm']
}

/// `Cache-Control` forbids transforming the message.
pub fn has_no_transform(cache_control: &Vec<Vec<u8>>) -> (r: bool)
    ensures
        r == header_lists_token(cache_control@, no_transform_lit()),
{
    let lit: [char; 12] = ['n', 'o', '-', 't', 'r', 'a', 'n', 's', 'f', 'o', 'r', 'm'];
    assert(lit@ =~= no_transform_lit());
    lists_token(cache_control, lit.as_slice())
}

/// What a `Content-Length` text parses to as `usize`: an optional `+`,
/// then at least one digit, within the range.
pub open spec fn decimal_usize(t: Seq<char>) -> Option<int> {
    let d = without_plus(t);
    if d.len() >= 1 && (forall|k: int| 0 <= k < d.len() ==> is_digit_char(#[trigger] d[k]))
        && 0 <= digits_value(d) <= usize::MAX {
        Some(digits_value(d))
    } else {
        None
    }
}

proof fn lemma_digits_value_grows(d: Seq<char>, k: int)
    requires
        0 <= k <= d.len(),
        forall|i: int| 0 <= i < d.len() ==> is_digit_char(#[trigger] d[i]),
    ensures
        digits_value(d.subrange(0, k)) <= digits_value(d),
    decreases d.len() - k,
{
    if k < d.len() {
        lemma_digits_value_grows(d, k + 1);
        assert(d.subrange(0, k + 1).drop_last() =~= d.subrange(0, k));
        assert(is_digit_char(d[k]));
        assert forall|i: int| 0 <= i < d.subrange(0, k).len() implies is_digit_char(
            #[trigger] d.subrange(0, k)[i],
        ) by {
            assert(d.subrange(0, k)[i] == d[i]);
        }
        lemma_digits_bound(d.subrange(0, k));
    } else {
        assert(d.subrange(0, k) =~= d);
    }
}

/// Parses `c[a..b]` as `str::parse::<usize>` does.
fn chars_usize(c: &Vec<char>, a: usize, b: usize) -> (r: Option<usize>)
    requires
        a <= b <= c@.len(),
    ensures
        match decimal_usize(c@.subrange(a as int, b as int)) {
            Some(n) => r == Some(n as usize),
            None => r is None,
        },
{
    let ghost t = c@.subrange(a as int, b as int);
    let mut start = a;
    if a < b && c[a] == '+' {
        start = a + 1;
    }
    let ghost d = c@.subrange(start as int, b as int);
    assert(without_plus(t) =~= d);
    if start >= b {
        return None;
    }
    let mut value: usize = 0;
    let mut k = start;
    while k < b
        invariant
            start <= k <= b <= c@.len(),
            d == c@.subrange(start as int, b as int),
            t == c@.subrange(a as int, b as int),
            without_plus(t) == d,
            forall|i: int| start <= i < k ==> is_digit_char(#[trigger] c@[i]),
            value == digits_value(c@.subrange(start as int, k as int)),
        decreases b - k,
    {
        let ch = c[k];
        if !('0' <= ch && ch <= '9') {
            assert(!is_digit_char(d[k - start]));
            return None;
        }
        proof {
            assert(c@.subrange(start as int, k + 1).drop_last() =~= c@.subrange(
                start as int,
                k as int,
            ));
        }
        let digit = ((ch as u32) - ('0' as u32)) as usize;
        let next = match value.checked_mul(10) {
            None => None,
            Some(m) => m.checked_add(digit),
        };
        match next {
            None => {
                proof {
                    let p = c@.subrange(start as int, k + 1);
                    assert(digits_value(p) == 10 * value + digit);
                    assert(digits_value(p) > usize::MAX);
                    if forall|i: int| 0 <= i < d.len() ==> is_digit_char(#[trigger] d[i]) {
                        assert(d.subrange(0, k + 1 - start) =~= p);
                        lemma_digits_value_grows(d, k + 1 - start);
                    }
                }
                return None;
            },
            Some(v) => {
                value = v;
            },
        }
        k += 1;
    }
    proof {
        assert(c@.subrange(start as int, b as int) =~= d);
    }
    Some(value)
}

/// ASCII case folding of one character, as `eq_ignore_ascii_case` does.
pub open spec fn fold_char(c: char) -> int {
    let u = c as u32;
    if 0x41 <= u <= 0x5a {
        u + 32
    } else {
        u as int
    }
}

/// Equality ignoring ASCII case.
pub open spec fn fold_eq(a: Seq<char>, b: Seq<char>) -> bool {
    a.len() == b.len() && forall|k: int| 0 <= k < a.len() ==> fold_char(#[trigger] a[k]) == fold_char(b[k])
}

fn chars_fold_eq(a: &Vec<char>, c: &Vec<char>, lo: usize, hi: usize) -> (r: bool)
    requires
        lo <= hi <= c@.len(),
    ensures
        r == fold_eq(a@, c@.subrange(lo as int, hi as int)),
{
    if a.len() != hi - lo {
        return false;
    }
    let mut k: usize = 0;
    while k < a.len()
        invariant
            k <= a@.len(),
            a@.len() == hi - lo,
            lo <= hi <= c@.len(),
            forall|i: int| 0 <= i < k ==> fold_char(#[trigger] a@[i]) == fold_char(c@[lo + i]),
        decreases a@.len() - k,
    {
        let x = a[k] as u32;
        let y = c[lo + k] as u32;
        let fx = if 0x41 <= x && x <= 0x5a {
            x + 32
        } else {
            x
        };
        let fy = if 0x41 <= y && y <= 0x5a {
            y + 32
        } else {
            y
        };
        if fx != fy {
            assert(c@.subrange(lo as int, hi as int)[k as int] == c@[lo + k]);
            return false;
        }
        k += 1;
    }
    assert forall|i: int| 0 <= i < a@.len() implies fold_char(#[trigger] a@[i]) == fold_char(
        c@.subrange(lo as int, hi as int)[i],
    ) by {
        assert(c@.subrange(lo as int, hi as int)[i] == c@[lo + i]);
    }
    true
}

/// What the response-compression stage reads of the request.
pub struct CompressionRequest {
    /// The method is `GET`.
    pub method_is_get: bool,
    /// The request is gRPC.
    pub grpc: bool,
    /// The request is a WebSocket upgrade.
    pub websocket: bool,
    /// The request was authenticated by a route stage.
    pub authenticated: bool,
    /// A `Range` header is present.
    pub has_range: bool,
    /// The `Accept-Encoding` field values, raw.
    pub accept_encoding: Vec<Vec<u8>>,
    /// The `Cache-Control` field values, raw.
    pub cache_control: Vec<Vec<u8>>,
}

/// What the response-compression stage reads of the response.
pub struct CompressionResponse {
    /// Status code.
    pub status: u16,
    /// A `Content-Encoding` header is present.
    pub has_content_encoding: bool,
    /// A `Content-Range` header is present.
    pub has_content_range: bool,
    /// A `Trailer` header is present.
    pub has_trailer: bool,
    /// The `Cache-Control` field values, raw.
    pub cache_control: Vec<Vec<u8>>,
    /// The first `Content-Length` value, raw.
    pub content_length: Option<Vec<u8>>,
    /// The first `Content-Type` value, raw.
    pub content_type: Option<Vec<u8>>,
}

/// Position of the first route middleware that names a compression policy.
pub open spec fn first_compression(config: Config, ids: Seq<String>, i: int) -> Option<int>
    decreases ids.len() - i,
{
    if i < 0 || i >= ids.len() {
        None
    } else if config.middlewares.spec_get(ids[i]@) matches Some(m) && m is Compression {
        Some(i)
    } else {
        first_compression(config, ids, i + 1)
    }
}

proof fn lemma_first_compression(config: Config, ids: Seq<String>, k: int)
    requires
        0 <= k,
    ensures
        first_compression(config, ids, k) matches Some(j) ==> k <= j < ids.len() && (
        config.middlewares.spec_get(ids[j]@) matches Some(m) && m is Compression),
    decreases ids.len() - k,
{
    if k < ids.len() {
        lemma_first_compression(config, ids, k + 1);
    }
}

pub open spec fn event_stream_lit() -> Seq<char> {
    seq!['t', 'e', 'x', 't', '/', 'e', 'v', 'e', 'n', 't', '-', 's', 't', 'r', 'e', 'a', 'm']
}

/// The request and response may be compressed at all: a successful `GET`
/// with a body, no gRPC, WebSocket, range, existing coding or trailer,
/// authentication only where allowed, and no `no-transform` on either side.
pub open spec fn exchange_compressible(
    req: CompressionRequest,
    resp: CompressionResponse,
    allow_authenticated: bool,
) -> bool {
    &&& req.method_is_get
    &&& 200 <= resp.status <= 299
    &&& resp.status != 204 && resp.status != 206
    &&& !req.grpc && !req.websocket
    &&& !(req.authenticated && !allow_authenticated)
    &&& !req.has_range
    &&& !resp.has_content_encoding && !resp.has_content_range && !resp.has_trailer
    &&& !header_lists_token(req.cache_control@, no_transform_lit())
    &&& !header_lists_token(resp.cache_control@, no_transform_lit())
}

/// The declared length parses and reaches the policy's minimum.
pub open spec fn length_reaches(length: Option<Vec<u8>>, min_bytes: usize) -> bool {
    match length {
        Some(v) => visible_ascii(v@) && (decimal_usize(ascii_chars(v@)) matches Some(n) && n
            >= min_bytes),
        None => false,
    }
}

/// The media type (before any `;`, trimmed) is not an event stream and is
/// one of the allowed types, ignoring ASCII case.
pub open spec fn type_allowed(content_type: Option<Vec<u8>>, types: Seq<String>) -> bool {
    match content_type {
        Some(v) => visible_ascii(v@) && {
            let c = ascii_chars(v@);
            let t = trimmed(c, 0, find_upto(c, ';', 0, c.len() as int));
            !ci_eq(t, event_stream_lit()) && exists|j: int|
                0 <= j < types.len() && #[trigger] fold_eq(types[j]@, t)
        },
        None => false,
    }
}

/// A compression policy applies to this exchange.
pub open spec fn policy_applies(
    m: MiddlewareConfig,
    req: CompressionRequest,
    resp: CompressionResponse,
) -> bool {
    match m {
        MiddlewareConfig::Compression { content_types, min_bytes, allow_authenticated, .. } => {
            &&& exchange_compressible(req, resp, allow_authenticated)
            &&& length_reaches(resp.content_length, min_bytes)
            &&& type_allowed(resp.content_type, content_types@)
        },
        _ => false,
    }
}

pub open spec fn policy_encodings(m: MiddlewareConfig) -> Seq<CompressionEncoding> {
    match m {
        MiddlewareConfig::Compression { encodings, .. } => encodings@,
        _ => Seq::empty(),
    }
}

fn find_compression(config: &Config, route: &RouteConfig) -> (r: Option<usize>)
    ensures
        r is None <==> first_compression(*config, route.middlewares@, 0) is None,
        r matches Some(i) ==> first_compression(*config, route.middlewares@, 0) == Some(i as int),
        r matches Some(i) ==> i < route.middlewares@.len() && (config.middlewares.spec_get(
            route.middlewares@[i as int]@,
        ) matches Some(m) && m is Compression),
{
    let mut i: usize = 0;
    while i < route.middlewares.len()
        invariant
            i <= route.middlewares@.len(),
            first_compression(*config, route.middlewares@, 0) == first_compression(
                *config,
                route.middlewares@,
                i as int,
            ),
        decreases route.middlewares@.len() - i,
    {
        match config.middlewares.get(route.middlewares[i].as_str()) {
            Some(MiddlewareConfig::Compression { .. }) => {
                return Some(i);
            },
            _ => {},
        }
        i += 1;
    }
    None
}

fn length_check(length: &Option<Vec<u8>>, min_bytes: usize) -> (r: bool)
    ensures
        r == length_reaches(*length, min_bytes),
{
    match length {
        None => false,
        Some(v) => {
            if !bytes_visible(v) {
                return false;
            }
            let c = bytes_chars(v);
            proof {
                assert(c@.subrange(0, c@.len() as int) =~= c@);
            }
            match chars_usize(&c, 0, c.len()) {
                Some(n) => n >= min_bytes,
                None => false,
            }
        },
    }
}

/// A `Content-Length` value as `usize`: `None` unless visible ASCII that
/// `str::parse::<usize>` accepts.
pub(crate) fn length_value(v: &Vec<u8>) -> (r: Option<usize>)
    ensures
        r == if visible_ascii(v@) {
            match decimal_usize(ascii_chars(v@)) {
                Some(n) => Some(n as usize),
                None => None,
            }
        } else {
            None::<usize>
        },
{
    if !bytes_visible(v) {
        return None;
    }
    let c = bytes_chars(v);
    proof {
        assert(c@.subrange(0, c@.len() as int) =~= c@);
    }
    chars_usize(&c, 0, c.len())
}

fn type_check(content_type: &Option<Vec<u8>>, types: &Vec<String>) -> (r: bool)
    ensures
        r == type_allowed(*content_type, types@),
{
    match content_type {
        None => false,
        Some(v) => {
            if !bytes_visible(v) {
                return false;
            }
            let c = bytes_chars(v);
            let f = chars_find_upto(&c, ';', 0, c.len());
            let (a, b) = chars_trim(&c, 0, f);
            let lit: [char; 17] = [
                't',
                'e',
                'x',
                't',
                '/',
                'e',
                'v',
                'e',
                'n',
                't',
                '-',
                's',
                't',
                'r',
                'e',
                'a',
                'm',
            ];
            assert(lit@ =~= event_stream_lit());
            if chars_ci_eq(&c, a, b, lit.as_slice()) {
                return false;
            }
            let mut j: usize = 0;
            while j < types.len()
                invariant
                    j <= types@.len(),
                    *content_type == Some(*v),
                    visible_ascii(v@),
                    c@ == ascii_chars(v@),
                    f == find_upto(c@, ';', 0, c@.len() as int),
                    !ci_eq(c@.subrange(a as int, b as int), event_stream_lit()),
                    a <= b <= c@.len(),
                    c@.subrange(a as int, b as int) == trimmed(c@, 0, f as int),
                    forall|k: int|
                        0 <= k < j ==> !#[trigger] fold_eq(
                            types@[k]@,
                            c@.subrange(a as int, b as int),
                        ),
                decreases types@.len() - j,
            {
                let allowed = str_chars(types[j].as_str());
                if chars_fold_eq(&allowed, &c, a, b) {
                    proof {
                        let cc = ascii_chars(v@);
                        let t = trimmed(cc, 0, find_upto(cc, ';', 0, cc.len() as int));
                        assert(t == c@.subrange(a as int, b as int));
                        assert(fold_eq(types@[j as int]@, t));
                        assert(!ci_eq(t, event_stream_lit()));
                        assert(exists|j: int|
                            0 <= j < types@.len() && #[trigger] fold_eq(types@[j]@, t));
                        assert(*content_type == Some(*v));
                        assert(visible_ascii(v@));
                        assert(type_allowed(*content_type, types@));
                    }
                    return true;
                }
                j += 1;
            }
            false
        },
    }
}

fn exchange_check(req: &CompressionRequest, resp: &CompressionResponse, allow_authenticated: bool) -> (r:
    bool)
    ensures
        r == exchange_compressible(*req, *resp, allow_authenticated),
{
    req.method_is_get && 200 <= resp.status && resp.status <= 299 && resp.status != 204
        && resp.status != 206 && !req.grpc && !req.websocket && !(req.authenticated
        && !allow_authenticated) && !req.has_range && !resp.has_content_encoding
        && !resp.has_content_range && !resp.has_trailer && !has_no_transform(&req.cache_control)
        && !has_no_transform(&resp.cache_control)
}

/// Decides whether a response is compressed: the first compression policy
/// of the route, if its conditions hold, with the preferred accepted coding.
/// The result is that policy's position in the route's middleware list.
#[verifier::rlimit(40)]
pub fn compression_choice(
    config: &Config,
    route: &RouteConfig,
    req: &CompressionRequest,
    resp: &CompressionResponse,
) -> (r: Option<(usize, CompressionEncoding)>)
    ensures
        match first_compression(*config, route.middlewares@, 0) {
            None => r is None,
            Some(i) => {
                let m = config.middlewares.spec_get(route.middlewares@[i]@)->0;
                let encs = policy_encodings(m);
                if policy_applies(m, *req, *resp) {
                    &&& (r is None <==> forall|j: int|
                        0 <= j < encs.len() ==> (#[trigger] coding_quality(
                            req.accept_encoding@,
                            encs[j],
                        )) is None)
                    &&& (r matches Some((k, e)) ==> k == i && exists|j: int|
                        #[trigger] preferred_at(req.accept_encoding@, encs, j) && encs[j] == e)
                } else {
                    r is None
                }
            },
        },
{
    proof {
        lemma_first_compression(*config, route.middlewares@, 0);
    }
    let i = match find_compression(config, route) {
        None => {
            return None;
        },
        Some(i) => i,
    };
    assert(config.middlewares.spec_get(route.middlewares@[i as int]@) is Some);
    assert(first_compression(*config, route.middlewares@, 0) == Some(i as int));
    let key = route.middlewares[i].as_str();
    assert(key@ == route.middlewares@[i as int]@);
    let m = match config.middlewares.get(key) {
        Some(m) => m,
        None => {
            return None;
        },
    };
    assert(*m == config.middlewares.spec_get(route.middlewares@[i as int]@)->0);
    if !policy_check(m, req, resp) {
        return None;
    }
    match m {
        MiddlewareConfig::Compression { encodings, .. } => {
            match select_encoding(&req.accept_encoding, encodings.as_slice()) {
                Some(e) => Some((i, e)),
                None => None,
            }
        },
        _ => None,
    }
}

fn policy_check(m: &MiddlewareConfig, req: &CompressionRequest, resp: &CompressionResponse) -> (r:
    bool)
    ensures
        r == policy_applies(*m, *req, *resp),
{
    match m {
        MiddlewareConfig::Compression { content_types, min_bytes, allow_authenticated, .. } => {
            exchange_check(req, resp, *allow_authenticated) && length_check(
                &resp.content_length,
                *min_bytes,
            ) && type_check(&resp.content_type, content_types)
        },
        _ => false,
    }
}

pub open spec fn accept_encoding_lit() -> Seq<char> {
    seq!['a', 'c', 'c', 'e', 'p', 't', '-', 'e', 'n', 'c', 'o', 'd', 'i', 'n', 'g']
}

/// A compressed response must add `Vary: Accept-Encoding` unless `Vary`
/// already lists it or `*`.
pub fn vary_needs_accept_encoding(vary: &Vec<Vec<u8>>) -> (r: bool)
    ensures
        r == !(header_lists_token(vary@, accept_encoding_lit()) || header_lists_token(
            vary@,
            seq!['*'],
        )),
{
    let lit: [char; 15] = ['a', 'c', 'c', 'e', 'p', 't', '-', 'e', 'n', 'c', 'o', 'd', 'i', 'n', 'g'];
    let star: [char; 1] = ['*'];
    assert(lit@ =~= accept_encoding_lit());
    assert(star@ =~= seq!['*']);
    !(lists_token(vary, lit.as_slice()) || lists_token(vary, star.as_slice()))
}

} // verus!
