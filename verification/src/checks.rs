//! Shared checks over lists and paths.

use vstd::prelude::*;
use crate::text::{utf8, str_eq};

verus! {

/// No two strings of `s` have equal text.
pub open spec fn distinct_strings(s: Seq<String>) -> bool {
    forall|i: int, j: int| 0 <= i < j < s.len() ==> (#[trigger] s[i])@ != (#[trigger] s[j])@
}

/// Whether some string of `s` has the text `t`.
pub open spec fn contains_string(s: Seq<String>, t: Seq<char>) -> bool {
    exists|i: int| 0 <= i < s.len() && (#[trigger] s[i])@ == t
}

pub fn vec_contains_str(v: &Vec<String>, t: &str) -> (r: bool)
    ensures
        r == contains_string(v@, t@),
{
    let mut i: usize = 0;
    while i < v.len()
        invariant
            i <= v@.len(),
            forall|k: int| 0 <= k < i ==> (#[trigger] v@[k])@ != t@,
        decreases v@.len() - i,
    {
        if str_eq(v[i].as_str(), t) {
            return true;
        }
        i += 1;
    }
    false
}

/// Whether all strings of `v` have distinct texts.
pub fn strings_distinct(v: &Vec<String>) -> (r: bool)
    ensures
        r == distinct_strings(v@),
{
    let mut j: usize = 0;
    while j < v.len()
        invariant
            j <= v@.len(),
            forall|a: int, b: int| 0 <= a < b < j ==> (#[trigger] v@[a])@ != (#[trigger] v@[b])@,
        decreases v@.len() - j,
    {
        let mut i: usize = 0;
        while i < j
            invariant
                i <= j < v@.len(),
                forall|a: int| 0 <= a < i ==> (#[trigger] v@[a])@ != v@[j as int]@,
            decreases j - i,
        {
            if str_eq(v[i].as_str(), v[j].as_str()) {
                assert(v@[i as int]@ == v@[j as int]@);
                return false;
            }
            i += 1;
        }
        j += 1;
    }
    true
}

/// Position-wise canonical path rules: ASCII; no `%`, `\`, `?` or `#`; no
/// empty segment after a slash; no `.` or `..` segment.
pub open spec fn slash_or_edge(b: Seq<u8>, i: int) -> bool {
    i < 0 || i >= b.len() || b[i] == 0x2f
}

pub open spec fn dot_segment_at(b: Seq<u8>, i: int) -> bool {
    &&& slash_or_edge(b, i - 1)
    &&& b[i] == 0x2e
    &&& (slash_or_edge(b, i + 1) || (i + 1 < b.len() && b[i + 1] == 0x2e && slash_or_edge(
        b,
        i + 2,
    )))
}

pub open spec fn path_byte_ok(b: Seq<u8>, i: int) -> bool {
    &&& b[i] < 0x80
    &&& b[i] != 0x25 && b[i] != 0x5c && b[i] != 0x3f && b[i] != 0x23
    &&& !(b[i] == 0x2f && i + 1 < b.len() && b[i + 1] == 0x2f)
    &&& !dot_segment_at(b, i)
}

/// A canonical absolute path of 1..=2048 bytes; a prefix is `/` or has no
/// trailing slash.
pub open spec fn canonical_path_ok(b: Seq<u8>, prefix: bool) -> bool {
    &&& 1 <= b.len() <= 2048
    &&& b[0] == 0x2f
    &&& forall|i: int| 0 <= i < b.len() ==> #[trigger] path_byte_ok(b, i)
    &&& (prefix ==> (b.len() == 1 || b[b.len() - 1] != 0x2f))
}

fn path_byte_ok_exec(b: &[u8], i: usize) -> (r: bool)
    requires
        i < b@.len(),
    ensures
        r == path_byte_ok(b@, i as int),
{
    let len = b.len();
    let c = b[i];
    if c >= 0x80 || c == 0x25 || c == 0x5c || c == 0x3f || c == 0x23 {
        return false;
    }
    if c == 0x2f && i + 1 < len && b[i + 1] == 0x2f {
        return false;
    }
    let before = i == 0 || b[i - 1] == 0x2f;
    if before && c == 0x2e {
        let after1 = i + 1 >= len || b[i + 1] == 0x2f;
        if after1 {
            return false;
        }
        if i + 1 < len && b[i + 1] == 0x2e {
            let after2 = i + 2 >= len || b[i + 2] == 0x2f;
            if after2 {
                return false;
            }
        }
    }
    true
}

pub fn canonical_path_bytes(b: &[u8], prefix: bool) -> (r: bool)
    ensures
        r == canonical_path_ok(b@, prefix),
{
    let len = b.len();
    if len == 0 || len > 2048 || b[0] != 0x2f {
        return false;
    }
    let mut i: usize = 0;
    while i < len
        invariant
            len == b@.len(),
            i <= len,
            forall|k: int| 0 <= k < i ==> #[trigger] path_byte_ok(b@, k),
        decreases len - i,
    {
        if !path_byte_ok_exec(b, i) {
            return false;
        }
        i += 1;
    }
    !(prefix && len != 1 && b[len - 1] == 0x2f)
}

/// Whether a path text is canonical.
pub fn is_canonical_path(path: &str, prefix: bool) -> (r: bool)
    ensures
        r == canonical_path_ok(utf8(path@), prefix),
{
    canonical_path_bytes(path.as_bytes(), prefix)
}

} // verus!
