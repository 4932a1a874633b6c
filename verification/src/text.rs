//! Byte-level views of text and the character classes that the validators use.

use vstd::prelude::*;
use vstd::utf8::encode_utf8;
use vstd::string::{StrSliceExecFns, StringExecFns};
use vstd::utf8::{valid_utf8, partial_valid_utf8, is_leading_byte_width_1};

verus! {

/// The UTF-8 bytes of a character sequence, which is what `str::len` and
/// `str::as_bytes` observe.
pub open spec fn utf8(s: Seq<char>) -> Seq<u8> {
    encode_utf8(s)
}

pub open spec fn is_lower(b: u8) -> bool {
    0x61 <= b && b <= 0x7a
}

pub open spec fn is_upper(b: u8) -> bool {
    0x41 <= b && b <= 0x5a
}

pub open spec fn is_digit(b: u8) -> bool {
    0x30 <= b && b <= 0x39
}

pub open spec fn is_alnum(b: u8) -> bool {
    is_lower(b) || is_upper(b) || is_digit(b)
}

pub open spec fn is_control(b: u8) -> bool {
    b < 0x20 || b == 0x7f
}

/// Visible ASCII other than space (`!` through `~`).
pub open spec fn is_graphic(b: u8) -> bool {
    0x21 <= b && b <= 0x7e
}

pub open spec fn is_ascii_byte(b: u8) -> bool {
    b < 0x80
}

/// Whether `b` contains byte `c` anywhere.
pub open spec fn has_byte(b: Seq<u8>, c: u8) -> bool {
    exists|i: int| 0 <= i < b.len() && b[i] == c
}

/// Whether `pat` occurs at position `at` of `b`.
pub open spec fn occurs_at(b: Seq<u8>, pat: Seq<u8>, at: int) -> bool {
    0 <= at && at + pat.len() <= b.len() && b.subrange(at, at + pat.len()) == pat
}

pub open spec fn starts_with(b: Seq<u8>, pat: Seq<u8>) -> bool {
    occurs_at(b, pat, 0)
}

pub open spec fn ends_with(b: Seq<u8>, pat: Seq<u8>) -> bool {
    occurs_at(b, pat, b.len() - pat.len())
}

pub open spec fn contains_seq(b: Seq<u8>, pat: Seq<u8>) -> bool {
    exists|i: int| occurs_at(b, pat, i)
}

/// Whether no two positions of `s` hold equal values.
pub open spec fn no_duplicates<T>(s: Seq<T>) -> bool {
    forall|i: int, j: int| 0 <= i < j < s.len() ==> s[i] != s[j]
}

pub fn byte_is_lower(b: u8) -> (r: bool)
    ensures
        r == is_lower(b),
{
    0x61 <= b && b <= 0x7a
}

pub fn byte_is_upper(b: u8) -> (r: bool)
    ensures
        r == is_upper(b),
{
    0x41 <= b && b <= 0x5a
}

pub fn byte_is_digit(b: u8) -> (r: bool)
    ensures
        r == is_digit(b),
{
    0x30 <= b && b <= 0x39
}

pub fn byte_is_alnum(b: u8) -> (r: bool)
    ensures
        r == is_alnum(b),
{
    byte_is_lower(b) || byte_is_upper(b) || byte_is_digit(b)
}

pub fn byte_is_control(b: u8) -> (r: bool)
    ensures
        r == is_control(b),
{
    b < 0x20 || b == 0x7f
}

/// Whether the slice contains the byte `c`.
pub fn slice_has_byte(b: &[u8], c: u8) -> (r: bool)
    ensures
        r == has_byte(b@, c),
{
    let mut i: usize = 0;
    while i < b.len()
        invariant
            i <= b@.len(),
            forall|k: int| 0 <= k < i ==> b@[k] != c,
        decreases b@.len() - i,
    {
        if b[i] == c {
            return true;
        }
        i += 1;
    }
    false
}

/// Whether `pat` occurs in `b` at byte offset `at`.
pub fn slice_occurs_at(b: &[u8], pat: &[u8], at: usize) -> (r: bool)
    ensures
        r == occurs_at(b@, pat@, at as int),
{
    if at > b.len() || pat.len() > b.len() - at {
        return false;
    }
    let mut i: usize = 0;
    while i < pat.len()
        invariant
            at + pat@.len() <= b@.len(),
            b@.len() == b.len(),
            i <= pat@.len(),
            forall|k: int| 0 <= k < i ==> b@[at + k] == pat@[k],
        decreases pat@.len() - i,
    {
        if b[at + i] != pat[i] {
            assert(b@.subrange(at as int, at + pat@.len())[i as int] != pat@[i as int]);
            return false;
        }
        i += 1;
    }
    assert(b@.subrange(at as int, at + pat@.len()) =~= pat@);
    true
}

pub fn slice_starts_with(b: &[u8], pat: &[u8]) -> (r: bool)
    ensures
        r == starts_with(b@, pat@),
{
    slice_occurs_at(b, pat, 0)
}

pub fn slice_ends_with(b: &[u8], pat: &[u8]) -> (r: bool)
    ensures
        r == ends_with(b@, pat@),
{
    if pat.len() > b.len() {
        return false;
    }
    slice_occurs_at(b, pat, b.len() - pat.len())
}

pub fn slice_contains(b: &[u8], pat: &[u8]) -> (r: bool)
    ensures
        r == contains_seq(b@, pat@),
{
    if pat.len() > b.len() {
        return false;
    }
    let last = b.len() - pat.len();
    let mut i: usize = 0;
    while i < last
        invariant
            last == b@.len() - pat@.len(),
            pat@.len() <= b@.len(),
            i <= last,
            forall|k: int| 0 <= k < i ==> !occurs_at(b@, pat@, k),
        decreases last - i,
    {
        if slice_occurs_at(b, pat, i) {
            return true;
        }
        i += 1;
    }
    if slice_occurs_at(b, pat, last) {
        return true;
    }
    assert forall|k: int| !occurs_at(b@, pat@, k) by {
        if 0 <= k && k + pat@.len() <= b@.len() && k != last {
            assert(k < i);
        }
    }
    false
}

/// Byte-wise equality of two slices.
pub fn slice_eq(a: &[u8], b: &[u8]) -> (r: bool)
    ensures
        r == (a@ == b@),
{
    if a.len() != b.len() {
        return false;
    }
    let mut i: usize = 0;
    while i < a.len()
        invariant
            a@.len() == b@.len(),
            i <= a@.len(),
            forall|k: int| 0 <= k < i ==> a@[k] == b@[k],
        decreases a@.len() - i,
    {
        if a[i] != b[i] {
            return false;
        }
        i += 1;
    }
    assert(a@ =~= b@);
    true
}


/// Equality of the texts of two string slices.
pub fn str_eq(a: &str, b: &str) -> (r: bool)
    ensures
        r == (a@ == b@),
{
    let r = slice_eq(a.as_bytes(), b.as_bytes());
    proof {
        vstd::utf8::encode_utf8_decode_utf8(a@);
        vstd::utf8::encode_utf8_decode_utf8(b@);
    }
    r
}


/// Unicode `White_Space`, the set `char::is_whitespace` and `str::trim` use.
pub open spec fn is_ws_char(c: char) -> bool {
    let u = c as u32;
    ||| 0x09 <= u <= 0x0d
    ||| u == 0x20 || u == 0x85 || u == 0xa0 || u == 0x1680
    ||| 0x2000 <= u <= 0x200a
    ||| u == 0x2028 || u == 0x2029 || u == 0x202f || u == 0x205f || u == 0x3000
}

pub fn char_is_whitespace(c: char) -> (r: bool)
    ensures
        r == is_ws_char(c),
{
    let u = c as u32;
    (0x09 <= u && u <= 0x0d) || u == 0x20 || u == 0x85 || u == 0xa0 || u == 0x1680 || (0x2000
        <= u && u <= 0x200a) || u == 0x2028 || u == 0x2029 || u == 0x202f || u == 0x205f || u
        == 0x3000
}

/// `c` lowercased by `to_ascii_lowercase` equals the lowercase ASCII `l`.
pub open spec fn lower_eq(c: char, l: char) -> bool {
    c == l || (0x61 <= l as u32 <= 0x7a && c as u32 + 32 == l as u32)
}

pub fn char_lower_eq(c: char, l: char) -> (r: bool)
    ensures
        r == lower_eq(c, l),
{
    let lu = l as u32;
    c == l || (0x61 <= lu && lu <= 0x7a && c as u32 + 32 == lu)
}

/// `d` equals the lowercase ASCII text `lit` ignoring ASCII case.
pub open spec fn ci_eq(d: Seq<char>, lit: Seq<char>) -> bool {
    d.len() == lit.len() && forall|k: int| 0 <= k < d.len() ==> lower_eq(#[trigger] d[k], lit[k])
}

/// `d` starts with the lowercase ASCII text `lit` ignoring ASCII case.
pub open spec fn ci_starts_with(d: Seq<char>, lit: Seq<char>) -> bool {
    d.len() >= lit.len() && forall|k: int|
        0 <= k < lit.len() ==> lower_eq(#[trigger] d[k], lit[k])
}

/// Whether `c[a..b]` starts with `lit`, ignoring ASCII case.
pub fn chars_ci_starts_with(c: &Vec<char>, a: usize, b: usize, lit: &[char]) -> (r: bool)
    requires
        a <= b <= c@.len(),
    ensures
        r == ci_starts_with(c@.subrange(a as int, b as int), lit@),
{
    if b - a < lit.len() {
        return false;
    }
    let mut k: usize = 0;
    while k < lit.len()
        invariant
            a <= b <= c@.len(),
            b - a >= lit@.len(),
            k <= lit@.len(),
            forall|m: int| 0 <= m < k ==> lower_eq(#[trigger] c@[a + m], lit@[m]),
        decreases lit@.len() - k,
    {
        if !char_lower_eq(c[a + k], lit[k]) {
            assert(c@.subrange(a as int, b as int)[k as int] == c@[a + k]);
            return false;
        }
        k += 1;
    }
    assert forall|m: int| 0 <= m < lit@.len() implies lower_eq(
        #[trigger] c@.subrange(a as int, b as int)[m],
        lit@[m],
    ) by {
        assert(c@.subrange(a as int, b as int)[m] == c@[a + m]);
    }
    true
}

/// Whether `c[a..b]` equals `lit`, ignoring ASCII case.
pub fn chars_ci_eq(c: &Vec<char>, a: usize, b: usize, lit: &[char]) -> (r: bool)
    requires
        a <= b <= c@.len(),
    ensures
        r == ci_eq(c@.subrange(a as int, b as int), lit@),
{
    b - a == lit.len() && chars_ci_starts_with(c, a, b, lit)
}

/// The characters of a text.
pub fn str_chars(s: &str) -> (r: Vec<char>)
    ensures
        r@ == s@,
{
    let n = s.unicode_len();
    let mut out: Vec<char> = Vec::new();
    let mut i: usize = 0;
    while i < n
        invariant
            n == s@.len(),
            i <= n,
            out@ == s@.subrange(0, i as int),
        decreases n - i,
    {
        out.push(s.get_char(i));
        i += 1;
    }
    assert(out@ =~= s@);
    out
}

/// Position of the first `sep` at or after `i`, or the length.
pub open spec fn find_char(c: Seq<char>, sep: char, i: int) -> int
    decreases c.len() - i,
{
    if i >= c.len() {
        c.len() as int
    } else if c[i] == sep {
        i
    } else {
        find_char(c, sep, i + 1)
    }
}

pub proof fn lemma_find_char(c: Seq<char>, sep: char, i: int)
    requires
        0 <= i <= c.len(),
    ensures
        i <= find_char(c, sep, i) <= c.len(),
        forall|k: int| i <= k < find_char(c, sep, i) ==> c[k] != sep,
        find_char(c, sep, i) < c.len() ==> c[find_char(c, sep, i)] == sep,
    decreases c.len() - i,
{
    if i < c.len() && c[i] != sep {
        lemma_find_char(c, sep, i + 1);
    }
}

pub fn chars_find(c: &Vec<char>, sep: char, i: usize) -> (r: usize)
    requires
        i <= c@.len(),
    ensures
        r == find_char(c@, sep, i as int),
{
    let mut j = i;
    while j < c.len()
        invariant
            i <= j <= c@.len(),
            find_char(c@, sep, i as int) == find_char(c@, sep, j as int),
        decreases c@.len() - j,
    {
        if c[j] == sep {
            return j;
        }
        j += 1;
    }
    j
}

/// First position in `i..hi` that is not whitespace, or `hi`.
pub open spec fn skip_ws(c: Seq<char>, i: int, hi: int) -> int
    decreases hi - i,
{
    if i < hi && is_ws_char(c[i]) {
        skip_ws(c, i + 1, hi)
    } else {
        i
    }
}

/// End of `lo..j` once trailing whitespace is dropped.
pub open spec fn back_ws(c: Seq<char>, lo: int, j: int) -> int
    decreases j - lo,
{
    if lo < j && is_ws_char(c[j - 1]) {
        back_ws(c, lo, j - 1)
    } else {
        j
    }
}

/// `c[lo..hi]` without leading and trailing whitespace, as `str::trim` gives.
pub open spec fn trimmed(c: Seq<char>, lo: int, hi: int) -> Seq<char> {
    let a = skip_ws(c, lo, hi);
    c.subrange(a, back_ws(c, a, hi))
}

pub proof fn lemma_skip_ws(c: Seq<char>, i: int, hi: int)
    requires
        i <= hi,
    ensures
        i <= skip_ws(c, i, hi) <= hi,
    decreases hi - i,
{
    if i < hi && is_ws_char(c[i]) {
        lemma_skip_ws(c, i + 1, hi);
    }
}

pub proof fn lemma_back_ws(c: Seq<char>, lo: int, j: int)
    requires
        lo <= j,
    ensures
        lo <= back_ws(c, lo, j) <= j,
    decreases j - lo,
{
    if lo < j && is_ws_char(c[j - 1]) {
        lemma_back_ws(c, lo, j - 1);
    }
}

/// The bounds of `c[lo..hi]` once trimmed.
pub fn chars_trim(c: &Vec<char>, lo: usize, hi: usize) -> (r: (usize, usize))
    requires
        lo <= hi <= c@.len(),
    ensures
        lo <= r.0 <= r.1 <= hi,
        r.0 == skip_ws(c@, lo as int, hi as int),
        r.1 == back_ws(c@, r.0 as int, hi as int),
        c@.subrange(r.0 as int, r.1 as int) == trimmed(c@, lo as int, hi as int),
{
    let mut a = lo;
    while a < hi && char_is_whitespace(c[a])
        invariant
            lo <= a <= hi <= c@.len(),
            skip_ws(c@, lo as int, hi as int) == skip_ws(c@, a as int, hi as int),
        decreases hi - a,
    {
        a += 1;
    }
    let mut b = hi;
    while b > a && char_is_whitespace(c[b - 1])
        invariant
            lo <= a <= b <= hi <= c@.len(),
            skip_ws(c@, lo as int, hi as int) == a,
            back_ws(c@, a as int, hi as int) == back_ws(c@, a as int, b as int),
        decreases b - a,
    {
        b -= 1;
    }
    (a, b)
}

/// Calls `core::str::from_utf8`; by its documentation it succeeds exactly on
/// valid UTF-8 and gives back the same bytes as text.
#[verifier::external_body]
pub(crate) fn utf8_text(bytes: &[u8]) -> (r: Option<&str>)
    ensures
        r is Some <==> valid_utf8(bytes@),
        r matches Some(t) ==> utf8(t@) == bytes@,
{
    core::str::from_utf8(bytes).ok()
}


/// Byte sequences of ASCII characters are valid UTF-8.
pub proof fn lemma_ascii_valid_utf8(b: Seq<u8>)
    requires
        forall|i: int| 0 <= i < b.len() ==> #[trigger] b[i] < 0x80,
    ensures
        valid_utf8(b),
{
    assert(b.subrange(0, 0) =~= Seq::<u8>::empty());
    assert(partial_valid_utf8(b, 0));
    assert forall|i: int| 0 <= 0 <= i < b.len() <= b.len() implies #[trigger] is_leading_byte_width_1(
        b[i],
    ) by {}
    vstd::utf8::partial_valid_utf8_extend_ascii_block(b, 0, b.len() as int);
    assert(b.subrange(0, b.len() as int) =~= b);
}

/// The text whose UTF-8 bytes are the given ASCII bytes.
pub fn ascii_string(bytes: &Vec<u8>) -> (r: String)
    requires
        forall|i: int| 0 <= i < bytes@.len() ==> #[trigger] bytes@[i] < 0x80,
    ensures
        utf8(r@) == bytes@,
{
    proof {
        lemma_ascii_valid_utf8(bytes@);
    }
    match utf8_text(bytes.as_slice()) {
        Some(t) => String::from_str(t),
        None => String::new(),
    }
}

/// The lowercase hexadecimal digit for a nibble.
pub open spec fn hex_digit(n: int) -> u8 {
    if n < 10 {
        (0x30 + n) as u8
    } else {
        (0x61 + n - 10) as u8
    }
}

/// Lowercase hexadecimal, two digits per byte.
pub open spec fn lower_hex(b: Seq<u8>) -> Seq<u8>
    decreases b.len(),
{
    if b.len() == 0 {
        Seq::empty()
    } else {
        lower_hex(b.drop_last()) + seq![hex_digit((b.last() / 16) as int), hex_digit((b.last() % 16) as int)]
    }
}

/// Lowercase hexadecimal digits of a byte string, two per byte.
pub fn hex(bytes: &[u8]) -> (r: Vec<u8>)
    ensures
        r@ == lower_hex(bytes@),
        forall|k: int| 0 <= k < r@.len() ==> #[trigger] r@[k] < 0x80,
{
    let mut out: Vec<u8> = Vec::new();
    let mut i: usize = 0;
    while i < bytes.len()
        invariant
            i <= bytes@.len(),
            out@ == lower_hex(bytes@.take(i as int)),
            forall|k: int| 0 <= k < out@.len() ==> #[trigger] out@[k] < 0x80,
        decreases bytes@.len() - i,
    {
        let b = bytes[i];
        let hi = b / 16;
        let lo = b % 16;
        let h = if hi < 10 {
            0x30 + hi
        } else {
            0x61 + hi - 10
        };
        let l = if lo < 10 {
            0x30 + lo
        } else {
            0x61 + lo - 10
        };
        out.push(h);
        out.push(l);
        proof {
            assert(bytes@.take(i + 1).drop_last() =~= bytes@.take(i as int));
            assert(out@ =~= lower_hex(bytes@.take(i + 1)));
        }
        i += 1;
    }
    assert(bytes@.take(bytes@.len() as int) =~= bytes@);
    out
}

} // verus!
