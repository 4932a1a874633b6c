//! Identifier and DNS-name rules.

use vstd::prelude::*;
use crate::text::{utf8, is_lower, is_upper, is_digit, byte_is_lower, byte_is_digit, has_byte, starts_with, slice_has_byte, slice_starts_with};
use crate::error::{ConfigError, join3};

verus! {

pub open spec fn id_byte(b: u8) -> bool {
    is_lower(b) || is_digit(b) || b == 0x5f || b == 0x2d
}

/// A stable identifier: 1..=63 bytes, a lowercase first letter, then lowercase
/// letters, digits, `_` or `-`.
pub open spec fn id_ok(b: Seq<u8>) -> bool {
    &&& 1 <= b.len() <= 63
    &&& is_lower(b[0])
    &&& forall|i: int| 0 <= i < b.len() ==> id_byte(#[trigger] b[i])
}

pub fn id_bytes_ok(b: &[u8]) -> (r: bool)
    ensures
        r == id_ok(b@),
{
    if b.len() == 0 || b.len() > 63 || !byte_is_lower(b[0]) {
        return false;
    }
    let mut i: usize = 0;
    while i < b.len()
        invariant
            i <= b@.len(),
            forall|k: int| 0 <= k < i ==> id_byte(#[trigger] b@[k]),
        decreases b@.len() - i,
    {
        let c = b[i];
        if !(byte_is_lower(c) || byte_is_digit(c) || c == 0x5f || c == 0x2d) {
            return false;
        }
        i += 1;
    }
    true
}

/// Validates a stable identifier.
/// The message that rejects identifier `v`.
pub open spec fn id_message(v: Seq<char>) -> Seq<char> {
    "invalid identifier \""@ + v + "\""@
}

pub fn valid_id(value: &str) -> (r: Result<(), ConfigError>)
    ensures
        r is Ok <==> id_ok(utf8(value@)),
        r matches Err(ConfigError::Invalid(m)) ==> m@ == id_message(value@),
{
    if id_bytes_ok(value.as_bytes()) {
        Ok(())
    } else {
        Err(ConfigError::Invalid(join3("invalid identifier \"", value, "\"")))
    }
}


pub open spec fn label_byte(b: u8) -> bool {
    is_lower(b) || is_digit(b) || b == 0x2d
}

/// Position `i` lies outside `b` or holds a dot.
pub open spec fn boundary(b: Seq<u8>, i: int) -> bool {
    i < 0 || i >= b.len() || b[i] == 0x2e
}

/// No dot in the positions `i..=k`.
pub open spec fn no_dot_between(b: Seq<u8>, i: int, k: int) -> bool {
    forall|m: int| i <= m <= k ==> b[m] != 0x2e
}

/// Every run of bytes without a dot is at most 63 bytes long.
pub open spec fn labels_short(b: Seq<u8>) -> bool {
    forall|i: int, k: int|
        0 <= i <= k < b.len() && #[trigger] no_dot_between(b, i, k) ==> k - i < 63
}

/// A dot-separated sequence of DNS labels: each label is 1..=63 bytes of
/// lowercase letters, digits and `-`, and neither starts nor ends with `-`.
pub open spec fn labels_ok(b: Seq<u8>) -> bool {
    &&& b.len() >= 1
    &&& forall|i: int| 0 <= i < b.len() ==> label_byte(#[trigger] b[i]) || b[i] == 0x2e
    &&& forall|i: int|
        0 <= i < b.len() && (#[trigger] b[i] == 0x2e || b[i] == 0x2d) ==> !boundary(b, i - 1)
            && !boundary(b, i + 1)
    &&& labels_short(b)
}

pub fn labels_bytes_ok(b: &[u8]) -> (r: bool)
    ensures
        r == labels_ok(b@),
{
    let len = b.len();
    if len == 0 {
        return false;
    }
    let mut i: usize = 0;
    let mut run: usize = 0;
    while i < len
        invariant
            len == b@.len(),
            i <= len,
            run <= 63,
            run <= i,
            forall|k: int| 0 <= k < i ==> label_byte(#[trigger] b@[k]) || b@[k] == 0x2e,
            forall|k: int|
                0 <= k < i && (#[trigger] b@[k] == 0x2e || b@[k] == 0x2d) ==> !boundary(b@, k - 1)
                    && !boundary(b@, k + 1),
            forall|k: int| i - run <= k < i ==> b@[k] != 0x2e,
            i - run == 0 || b@[i - run - 1] == 0x2e,
            forall|p: int, k: int|
                0 <= p <= k < i && #[trigger] no_dot_between(b@, p, k) ==> k - p < 63,
        decreases len - i,
    {
        let c = b[i];
        if !(byte_is_lower(c) || byte_is_digit(c) || c == 0x2d || c == 0x2e) {
            assert(!(label_byte(b@[i as int]) || b@[i as int] == 0x2e));
            return false;
        }
        if c == 0x2e || c == 0x2d {
            if i == 0 || b[i - 1] == 0x2e || i + 1 >= len || b[i + 1] == 0x2e {
                return false;
            }
        }
        let ghost old_run = run;
        if c == 0x2e {
            run = 0;
        } else {
            if run == 63 {
                assert(no_dot_between(b@, i - 63, i as int));
                return false;
            }
            run = run + 1;
        }
        assert forall|p: int, k: int|
            0 <= p <= k < i + 1 && #[trigger] no_dot_between(b@, p, k) implies k - p < 63 by {
            if k == i {
                if c != 0x2e && i + 1 - run > 0 {
                    let d = i - run;
                    assert(b@[d] == 0x2e);
                    if p <= d {
                        assert(b@[d] != 0x2e);
                    }
                }
                if c == 0x2e {
                    assert(b@[k] != 0x2e);
                }
            }
        }
        i += 1;
    }
    true
}


/// A canonical upstream DNS name: 1..=253 bytes of valid labels.
pub open spec fn upstream_host_ok(b: Seq<u8>) -> bool {
    b.len() <= 253 && labels_ok(b)
}

/// A certificate host: 1..=253 bytes, either an exact name or `*.` followed by
/// a name; the name holds at least two labels.
pub open spec fn cert_host_ok(b: Seq<u8>) -> bool {
    &&& 1 <= b.len() <= 253
    &&& if starts_with(b, seq![0x2au8, 0x2eu8]) {
        let rest = b.subrange(2, b.len() as int);
        has_byte(rest, 0x2e) && labels_ok(rest)
    } else {
        has_byte(b, 0x2e) && labels_ok(b)
    }
}

/// An exact (non-wildcard) certificate host.
pub open spec fn exact_host_ok(b: Seq<u8>) -> bool {
    !has_byte(b, 0x2a) && cert_host_ok(b)
}

/// Position of the first dot of `b`, if any.
pub open spec fn first_dot(b: Seq<u8>) -> Option<int>
    decreases b.len(),
{
    if b.len() == 0 {
        None
    } else if b[0] == 0x2e {
        Some(0)
    } else {
        match first_dot(b.drop_first()) {
            Some(k) => Some(k + 1),
            None => None,
        }
    }
}

pub proof fn lemma_first_dot(b: Seq<u8>)
    ensures
        match first_dot(b) {
            Some(d) => 0 <= d < b.len() && b[d] == 0x2e && forall|k: int| 0 <= k < d ==> b[k] != 0x2e,
            None => forall|k: int| 0 <= k < b.len() ==> b[k] != 0x2e,
        },
    decreases b.len(),
{
    if b.len() > 0 && b[0] != 0x2e {
        lemma_first_dot(b.drop_first());
        assert forall|k: int| 1 <= k < b.len() implies b[k] == b.drop_first()[k - 1] by {}
    }
}

/// The `.`-separated labels of `b`, in order.
pub open spec fn dot_labels(b: Seq<u8>) -> Seq<Seq<u8>>
    decreases b.len(),
{
    match first_dot(b) {
        None => seq![b],
        Some(d) => {
            proof {
                lemma_first_dot(b);
            }
            seq![b.take(d)] + dot_labels(b.skip(d + 1))
        },
    }
}

/// One DNS label: 1..=63 bytes of lowercase letters, digits and `-`, not
/// starting or ending with `-`.
pub open spec fn dns_label_ok(l: Seq<u8>) -> bool {
    &&& 1 <= l.len() <= 63
    &&& forall|i: int| 0 <= i < l.len() ==> label_byte(#[trigger] l[i])
    &&& l[0] != 0x2d
    &&& l[l.len() - 1] != 0x2d
}

/// Every label is a DNS label.
pub open spec fn all_dns_labels(ls: Seq<Seq<u8>>) -> bool {
    forall|j: int| 0 <= j < ls.len() ==> dns_label_ok(#[trigger] ls[j])
}

proof fn lemma_single_label(b: Seq<u8>)
    requires
        forall|k: int| 0 <= k < b.len() ==> b[k] != 0x2e,
    ensures
        labels_ok(b) <==> dns_label_ok(b),
{
    if labels_ok(b) {
        if b.len() > 0 {
            assert(no_dot_between(b, 0, b.len() - 1));
            assert(label_byte(b[0]) || b[0] == 0x2e);
            assert(label_byte(b[b.len() - 1]) || b[b.len() - 1] == 0x2e);
        }
    }
    if dns_label_ok(b) {
        assert forall|i: int|
            0 <= i < b.len() && (#[trigger] b[i] == 0x2e || b[i] == 0x2d) implies !boundary(b, i - 1)
                && !boundary(b, i + 1) by {
            assert(label_byte(b[i]));
        }
    }
}

proof fn lemma_split_first_label(b: Seq<u8>, d: int)
    requires
        0 <= d < b.len(),
        b[d] == 0x2e,
        forall|k: int| 0 <= k < d ==> b[k] != 0x2e,
    ensures
        labels_ok(b) <==> dns_label_ok(b.take(d)) && labels_ok(b.skip(d + 1)),
{
    let l = b.take(d);
    let r = b.skip(d + 1);
    assert forall|i: int| 0 <= i < r.len() implies r[i] == b[d + 1 + i] by {}
    if labels_ok(b) {
        assert(!boundary(b, d - 1) && !boundary(b, d + 1));
        assert(no_dot_between(b, 0, d - 1));
        assert forall|i: int| 0 <= i < l.len() implies label_byte(#[trigger] l[i]) by {
            assert(label_byte(b[i]) || b[i] == 0x2e);
        }
        if b[0] == 0x2d {
            assert(b[0] == 0x2e || b[0] == 0x2d);
        }
        if b[d - 1] == 0x2d {
            assert(b[d - 1] == 0x2e || b[d - 1] == 0x2d);
        }
        assert forall|i: int| 0 <= i < r.len() implies label_byte(#[trigger] r[i]) || r[i] == 0x2e by {
            assert(label_byte(b[d + 1 + i]) || b[d + 1 + i] == 0x2e);
        }
        assert forall|i: int|
            0 <= i < r.len() && (#[trigger] r[i] == 0x2e || r[i] == 0x2d) implies !boundary(r, i - 1)
                && !boundary(r, i + 1) by {
            let j = d + 1 + i;
            assert(b[j] == 0x2e || b[j] == 0x2d);
        }
        assert forall|p: int, k: int|
            0 <= p <= k < r.len() && #[trigger] no_dot_between(r, p, k) implies k - p < 63 by {
            assert forall|m: int| d + 1 + p <= m <= d + 1 + k implies b[m] != 0x2e by {
                assert(r[m - d - 1] != 0x2e);
            }
            assert(no_dot_between(b, d + 1 + p, d + 1 + k));
        }
    }
    if dns_label_ok(l) && labels_ok(r) {
        assert forall|k: int| 0 <= k < b.len() implies label_byte(#[trigger] b[k]) || b[k] == 0x2e by {
            if k < d {
                assert(label_byte(l[k]));
            } else if k > d {
                assert(label_byte(r[k - d - 1]) || r[k - d - 1] == 0x2e);
            }
        }
        if r[0] == 0x2e {
            assert(r[0] == 0x2e || r[0] == 0x2d);
        }
        assert forall|k: int|
            0 <= k < b.len() && (#[trigger] b[k] == 0x2e || b[k] == 0x2d) implies !boundary(b, k - 1)
                && !boundary(b, k + 1) by {
            if k < d {
                assert(label_byte(l[k]));
                if k > 0 {
                    assert(b[k - 1] != 0x2e);
                }
                if k + 1 < d {
                    assert(b[k + 1] != 0x2e);
                }
            } else if k > d {
                let i = k - d - 1;
                assert(r[i] == 0x2e || r[i] == 0x2d);
                assert(!boundary(r, i - 1) && !boundary(r, i + 1));
            } else {
                assert(label_byte(l[d - 1]));
            }
        }
        assert forall|p: int, k: int|
            0 <= p <= k < b.len() && #[trigger] no_dot_between(b, p, k) implies k - p < 63 by {
            if p <= d && d <= k {
                assert(b[d] != 0x2e);
            } else if p > d {
                assert forall|m: int| p - d - 1 <= m <= k - d - 1 implies r[m] != 0x2e by {
                    assert(b[m + d + 1] != 0x2e);
                }
                assert(no_dot_between(r, p - d - 1, k - d - 1));
            }
        }
    }
}

/// `labels_ok` states the rule label by label: a text passes exactly when
/// each of its `.`-separated labels is 1..=63 bytes of lowercase letters,
/// digits and `-`, not starting or ending with `-`.
pub proof fn lemma_labels_ok_by_label(b: Seq<u8>)
    ensures
        labels_ok(b) <==> all_dns_labels(dot_labels(b)),
    decreases b.len(),
{
    lemma_first_dot(b);
    match first_dot(b) {
        None => {
            lemma_single_label(b);
            assert(dot_labels(b) == seq![b]);
            if dns_label_ok(b) {
                assert(all_dns_labels(dot_labels(b)));
            }
            if all_dns_labels(dot_labels(b)) {
                assert(dns_label_ok(dot_labels(b)[0]));
            }
        },
        Some(d) => {
            let r = b.skip(d + 1);
            lemma_labels_ok_by_label(r);
            lemma_split_first_label(b, d);
            let ls = dot_labels(b);
            assert(ls == seq![b.take(d)] + dot_labels(r));
            if all_dns_labels(ls) {
                assert(dns_label_ok(ls[0]));
                assert forall|j: int| 0 <= j < dot_labels(r).len() implies dns_label_ok(
                    #[trigger] dot_labels(r)[j],
                ) by {
                    assert(ls[j + 1] == dot_labels(r)[j]);
                }
            }
            if dns_label_ok(b.take(d)) && all_dns_labels(dot_labels(r)) {
                assert forall|j: int| 0 <= j < ls.len() implies dns_label_ok(#[trigger] ls[j]) by {
                    if j > 0 {
                        assert(ls[j] == dot_labels(r)[j - 1]);
                    }
                }
            }
        },
    }
}

/// An upstream host name passes exactly when it is 1..=253 bytes and every
/// `.`-separated label is a DNS label.
pub proof fn lemma_upstream_host_by_label(b: Seq<u8>)
    ensures
        upstream_host_ok(b) <==> (1 <= b.len() <= 253 && all_dns_labels(dot_labels(b))),
{
    lemma_labels_ok_by_label(b);
}

/// An exact certificate host passes exactly when it holds no `*`, is
/// 1..=253 bytes, has at least two `.`-separated labels, and each is a DNS
/// label (so it neither starts nor ends with `.`).
pub proof fn lemma_exact_host_by_label(b: Seq<u8>)
    ensures
        exact_host_ok(b) <==> (!has_byte(b, 0x2a) && 1 <= b.len() <= 253 && dot_labels(b).len() >= 2
            && all_dns_labels(dot_labels(b))),
{
    lemma_labels_ok_by_label(b);
    lemma_first_dot(b);
    if b.len() >= 2 && starts_with(b, seq![0x2au8, 0x2eu8]) {
        assert(b[0] == b.subrange(0, 2)[0]);
        assert(has_byte(b, 0x2a));
    }
    match first_dot(b) {
        None => {
            assert(dot_labels(b).len() == 1);
            if has_byte(b, 0x2e) {
                let i = choose|i: int| 0 <= i < b.len() && b[i] == 0x2e;
                assert(b[i] != 0x2e);
            }
        },
        Some(d) => {
            assert(dot_labels(b).len() >= 2) by {
                lemma_dot_labels_nonempty(b.skip(d + 1));
            }
            assert(has_byte(b, 0x2e));
        },
    }
}

proof fn lemma_dot_labels_nonempty(b: Seq<u8>)
    ensures
        dot_labels(b).len() >= 1,
    decreases b.len(),
{
    lemma_first_dot(b);
    if let Some(d) = first_dot(b) {
        lemma_dot_labels_nonempty(b.skip(d + 1));
    }
}

pub fn upstream_host_bytes_ok(b: &[u8]) -> (r: bool)
    ensures
        r == upstream_host_ok(b@),
{
    b.len() <= 253 && labels_bytes_ok(b)
}

pub fn cert_host_bytes_ok(b: &[u8]) -> (r: bool)
    ensures
        r == cert_host_ok(b@),
{
    if b.len() == 0 || b.len() > 253 {
        return false;
    }
    let wild: [u8; 2] = [0x2a, 0x2e];
    let ghost w = seq![0x2au8, 0x2eu8];
    assert(wild@ =~= w);
    if slice_starts_with(b, wild.as_slice()) {
        let rest = &b[2..b.len()];
        slice_has_byte(rest, 0x2e) && labels_bytes_ok(rest)
    } else {
        slice_has_byte(b, 0x2e) && labels_bytes_ok(b)
    }
}

/// Why an upstream DNS name is refused: its length or letter case, or
/// else one of its labels.
pub open spec fn upstream_host_reason(b: Seq<u8>) -> Seq<char> {
    if b.len() == 0 || b.len() > 253 || exists|k: int| 0 <= k < b.len() && is_upper(#[trigger] b[k]) {
        "name must be bounded lowercase ASCII"@
    } else {
        "name contains an invalid DNS label"@
    }
}

/// Validates an upstream DNS name; the error says which rule it breaks.
pub fn valid_upstream_host(value: &str) -> (r: Result<(), &'static str>)
    ensures
        r is Ok <==> upstream_host_ok(utf8(value@)),
        r matches Err(m) ==> m@ == upstream_host_reason(utf8(value@)),
{
    let b = value.as_bytes();
    let mut upper = false;
    let mut i: usize = 0;
    while i < b.len()
        invariant
            i <= b@.len(),
            b@ == utf8(value@),
            upper == exists|k: int| 0 <= k < i && is_upper(#[trigger] b@[k]),
        decreases b@.len() - i,
    {
        if crate::text::byte_is_upper(b[i]) {
            upper = true;
        }
        i += 1;
    }
    if b.len() == 0 || b.len() > 253 || upper {
        if upstream_host_bytes_ok(b) {
            return Ok(());
        }
        return Err("name must be bounded lowercase ASCII");
    }
    if upstream_host_bytes_ok(b) {
        Ok(())
    } else {
        Err("name contains an invalid DNS label")
    }
}

/// Validates an exact or single-label-wildcard certificate host.
/// The message that rejects certificate host `v`.
pub open spec fn cert_host_message(v: Seq<char>) -> Seq<char> {
    "invalid certificate host \""@ + v + "\""@
}

pub fn valid_certificate_host(value: &str) -> (r: Result<(), ConfigError>)
    ensures
        r is Ok <==> cert_host_ok(utf8(value@)),
        r matches Err(ConfigError::Invalid(m)) ==> m@ == cert_host_message(value@),
{
    if cert_host_bytes_ok(value.as_bytes()) {
        Ok(())
    } else {
        Err(ConfigError::Invalid(join3("invalid certificate host \"", value, "\"")))
    }
}

/// Validate one exact canonical ASCII host name used by typed control-plane objects.
pub fn validate_exact_host(value: &str) -> (r: Result<(), ConfigError>)
    ensures
        r is Ok <==> exact_host_ok(utf8(value@)),
{
    if slice_has_byte(value.as_bytes(), 0x2a) {
        return Err(ConfigError::invalid("wildcard hosts are unsupported for this object"));
    }
    valid_certificate_host(value)
}

/// Validate one canonical ASCII DNS upstream name without performing resolution.
pub fn validate_upstream_hostname(value: &str) -> (r: Result<(), ConfigError>)
    ensures
        r is Ok <==> upstream_host_ok(utf8(value@)),
{
    match valid_upstream_host(value) {
        Ok(()) => Ok(()),
        Err(message) => Err(ConfigError::invalid(message)),
    }
}

} // verus!
