//! Decisions of the certificate manager: DNS-01 propagation checks and the
//! comparison of ACME policies across reloads.

use vstd::prelude::*;
use crate::text::str_eq;
use crate::web::opt_view;
use crate::schema::{AcmeIssuerConfig, AcmeCertificateConfig, AcmeExternalAccountConfig};

verus! {

/// Largest joined TXT value that a DNS-01 check accepts.
pub const MAX_DNS_CHALLENGE_VALUE_BYTES: usize = 2048;

/// Most TXT answers that one DNS-01 lookup may return.
pub const MAX_DNS_CHALLENGE_ANSWERS: usize = 32;

/// The concatenation of byte strings, in order.
pub open spec fn joined(s: Seq<Seq<u8>>) -> Seq<u8>
    decreases s.len(),
{
    if s.len() == 0 {
        Seq::empty()
    } else {
        joined(s.drop_last()) + s.last()
    }
}

/// The bytes of each TXT character-string of one record.
pub open spec fn segment_bytes(segments: Seq<Box<[u8]>>) -> Seq<Seq<u8>> {
    Seq::new(segments.len(), |i: int| segments[i]@)
}

/// A TXT record carries exactly the expected value: its character-strings,
/// joined, are the value, and the value is within the bound.
pub open spec fn txt_matches(segments: Seq<Box<[u8]>>, expected: Seq<u8>) -> bool {
    let value = joined(segment_bytes(segments));
    &&& value.len() <= MAX_DNS_CHALLENGE_VALUE_BYTES
    &&& value == expected
}

/// A joined prefix of the strings is a prefix of the whole join.
pub proof fn lemma_joined_prefix(s: Seq<Seq<u8>>, m: int)
    requires
        0 <= m <= s.len(),
    ensures
        joined(s.take(m)).len() <= joined(s).len(),
        joined(s).take(joined(s.take(m)).len() as int) == joined(s.take(m)),
    decreases s.len(),
{
    if m == s.len() {
        assert(s.take(m) =~= s);
    } else {
        assert(s.drop_last().take(m) =~= s.take(m));
        lemma_joined_prefix(s.drop_last(), m);
        let a = joined(s.drop_last());
        let p = joined(s.take(m));
        assert((a + s.last()).take(p.len() as int) =~= a.take(p.len() as int));
    }
}

/// Whether one TXT record holds exactly the expected challenge value.
pub fn txt_value_matches(segments: &[Box<[u8]>], expected: &[u8]) -> (r: bool)
    ensures
        r == txt_matches(segments@, expected@),
{
    let ghost s = segment_bytes(segments@);
    let mut total: usize = 0;
    let mut i: usize = 0;
    while i < segments.len()
        invariant
            i <= segments@.len(),
            s == segment_bytes(segments@),
            total == joined(s.take(i as int)).len(),
            total <= MAX_DNS_CHALLENGE_VALUE_BYTES,
        decreases segments@.len() - i,
    {
        let n = segments[i].len();
        proof {
            assert(s.take(i + 1).drop_last() =~= s.take(i as int));
            assert(s.take(i + 1).last() == s[i as int]);
        }
        if n > MAX_DNS_CHALLENGE_VALUE_BYTES - total {
            proof {
                lemma_joined_prefix(s, i + 1);
            }
            return false;
        }
        total = total + n;
        i += 1;
    }
    proof {
        assert(s.take(s.len() as int) =~= s);
    }
    if total != expected.len() {
        return false;
    }
    let mut k: usize = 0;
    let mut i: usize = 0;
    while i < segments.len()
        invariant
            i <= segments@.len(),
            s == segment_bytes(segments@),
            total == joined(s).len(),
            total == expected@.len(),
            k == joined(s.take(i as int)).len(),
            joined(s.take(i as int)) == expected@.take(k as int),
        decreases segments@.len() - i,
    {
        let seg = &segments[i];
        proof {
            assert(s.take(i + 1).drop_last() =~= s.take(i as int));
            assert(s.take(i + 1).last() == s[i as int]);
            lemma_joined_prefix(s, i + 1);
        }
        let mut j: usize = 0;
        while j < seg.len()
            invariant
                j <= seg@.len(),
                seg@ == s[i as int],
                s == segment_bytes(segments@),
                0 <= i < s.len(),
                k + seg@.len() <= total,
                total == expected@.len(),
                total == joined(s).len(),
                joined(s.take(i as int)) + seg@.take(j as int) == expected@.take(k + j),
                joined(s.take(i + 1)) == joined(s.take(i as int)) + seg@,
                joined(s).take(joined(s.take(i + 1)).len() as int) == joined(s.take(i + 1)),
                k == joined(s.take(i as int)).len(),
            decreases seg@.len() - j,
        {
            if seg[j] != expected[k + j] {
                proof {
                    let whole = joined(s);
                    let pre = joined(s.take(i + 1));
                    assert(pre[k + j] == seg@[j as int]);
                    assert(whole.take(pre.len() as int)[k + j] == pre[k + j]);
                    assert(whole[k + j] != expected@[k + j]);
                }
                return false;
            }
            proof {
                assert(joined(s.take(i as int)) + seg@.take(j + 1) =~= (joined(s.take(i as int))
                    + seg@.take(j as int)).push(seg@[j as int]));
                assert(expected@.take(k + j + 1) =~= expected@.take(k + j).push(expected@[k + j]));
            }
            j += 1;
        }
        proof {
            assert(seg@.take(seg@.len() as int) =~= seg@);
        }
        k = k + seg.len();
        i += 1;
    }
    proof {
        assert(s.take(s.len() as int) =~= s);
        assert(expected@.take(k as int) =~= expected@);
    }
    true
}

/// One lookup confirms a set of challenge values: it returned at most the
/// bounded number of TXT answers, and every value is carried by one of them.
pub open spec fn txt_lookup_confirms(answers: Seq<Vec<Box<[u8]>>>, values: Seq<Seq<u8>>) -> bool {
    &&& answers.len() <= MAX_DNS_CHALLENGE_ANSWERS
    &&& forall|v: int| 0 <= v < values.len() ==> #[trigger] value_carried(answers, values[v])
}

/// Some answer carries the value.
pub open spec fn value_carried(answers: Seq<Vec<Box<[u8]>>>, value: Seq<u8>) -> bool {
    exists|a: int| 0 <= a < answers.len() && #[trigger] txt_matches(answers[a]@, value)
}

/// Whether the TXT answers of one lookup show every expected value.
pub fn lookup_confirms_values(answers: &[Vec<Box<[u8]>>], values: &[Vec<u8>]) -> (r: bool)
    ensures
        r == txt_lookup_confirms(answers@, values@.map_values(|v: Vec<u8>| v@)),
{
    let ghost vals = values@.map_values(|v: Vec<u8>| v@);
    if answers.len() > MAX_DNS_CHALLENGE_ANSWERS {
        return false;
    }
    let mut v: usize = 0;
    while v < values.len()
        invariant
            v <= values@.len(),
            answers@.len() <= MAX_DNS_CHALLENGE_ANSWERS,
            vals == values@.map_values(|v: Vec<u8>| v@),
            forall|w: int| 0 <= w < v ==> #[trigger] value_carried(answers@, vals[w]),
        decreases values@.len() - v,
    {
        let mut found = false;
        let mut a: usize = 0;
        while a < answers.len()
            invariant
                a <= answers@.len(),
                v < values@.len(),
                vals == values@.map_values(|v: Vec<u8>| v@),
                !found ==> forall|b: int|
                    0 <= b < a ==> !#[trigger] txt_matches(answers@[b]@, vals[v as int]),
                found ==> value_carried(answers@, vals[v as int]),
            decreases answers@.len() - a,
        {
            if txt_value_matches(answers[a].as_slice(), values[v].as_slice()) {
                found = true;
            }
            a += 1;
        }
        if !found {
            proof {
                assert(!value_carried(answers@, vals[v as int]));
            }
            return false;
        }
        v += 1;
    }
    true
}

/// Two optional strings hold the same text, or are both absent.
pub fn same_opt_text(a: &Option<String>, b: &Option<String>) -> (r: bool)
    ensures
        r == (opt_view(*a) == opt_view(*b)),
{
    match (a, b) {
        (Some(x), Some(y)) => str_eq(x.as_str(), y.as_str()),
        (None, None) => true,
        _ => false,
    }
}

/// Two string lists hold the same texts in the same order.
pub fn same_text_list(a: &Vec<String>, b: &Vec<String>) -> (r: bool)
    ensures
        r == (a@.map_values(|s: String| s@) == b@.map_values(|s: String| s@)),
{
    let ghost av = a@.map_values(|s: String| s@);
    let ghost bv = b@.map_values(|s: String| s@);
    if a.len() != b.len() {
        proof {
            assert(av.len() != bv.len());
        }
        return false;
    }
    let mut i: usize = 0;
    while i < a.len()
        invariant
            i <= a@.len(),
            a@.len() == b@.len(),
            av == a@.map_values(|s: String| s@),
            bv == b@.map_values(|s: String| s@),
            forall|k: int| 0 <= k < i ==> av[k] == bv[k],
        decreases a@.len() - i,
    {
        if !str_eq(a[i].as_str(), b[i].as_str()) {
            proof {
                assert(av[i as int] != bv[i as int]);
            }
            return false;
        }
        i += 1;
    }
    proof {
        assert(av =~= bv);
    }
    true
}

pub open spec fn same_account_spec(
    a: Option<AcmeExternalAccountConfig>,
    b: Option<AcmeExternalAccountConfig>,
) -> bool {
    match (a, b) {
        (None, None) => true,
        (Some(x), Some(y)) => x.key_id@ == y.key_id@ && x.hmac_key@ == y.hmac_key@,
        _ => false,
    }
}

/// An issuer's policy is unchanged: every field that account registration and
/// ordering read is equal.
pub open spec fn same_issuer_spec(left: AcmeIssuerConfig, right: AcmeIssuerConfig) -> bool {
    &&& left.id@ == right.id@
    &&& left.directory_url@.serialization == right.directory_url@.serialization
    &&& left.environment == right.environment
    &&& opt_view(left.account_email) == opt_view(right.account_email)
    &&& left.terms_of_service_agreed == right.terms_of_service_agreed
    &&& opt_view(left.ca_bundle) == opt_view(right.ca_bundle)
    &&& left.max_concurrent_orders == right.max_concurrent_orders
    &&& same_account_spec(left.external_account, right.external_account)
}

/// Whether an issuer's policy is unchanged between two configurations.
pub fn same_issuer_policy(left: &AcmeIssuerConfig, right: &AcmeIssuerConfig) -> (r: bool)
    ensures
        r == same_issuer_spec(*left, *right),
{
    let accounts = match (&left.external_account, &right.external_account) {
        (None, None) => true,
        (Some(l), Some(r)) => str_eq(l.key_id.as_str(), r.key_id.as_str()) && str_eq(
            l.hmac_key.as_str(),
            r.hmac_key.as_str(),
        ),
        _ => false,
    };
    str_eq(left.id.as_str(), right.id.as_str()) && str_eq(
        left.directory_url.as_str(),
        right.directory_url.as_str(),
    ) && left.environment == right.environment && same_opt_text(
        &left.account_email,
        &right.account_email,
    ) && left.terms_of_service_agreed == right.terms_of_service_agreed && same_opt_text(
        &left.ca_bundle,
        &right.ca_bundle,
    ) && left.max_concurrent_orders == right.max_concurrent_orders && accounts
}

/// A managed certificate's order policy is unchanged.
pub open spec fn same_certificate_spec(
    left: AcmeCertificateConfig,
    right: AcmeCertificateConfig,
) -> bool {
    &&& left.id@ == right.id@
    &&& left.hosts@.map_values(|s: String| s@) == right.hosts@.map_values(|s: String| s@)
    &&& left.issuer@ == right.issuer@
    &&& left.challenge == right.challenge
    &&& opt_view(left.challenge_listener) == opt_view(right.challenge_listener)
    &&& opt_view(left.dns_provider) == opt_view(right.dns_provider)
    &&& opt_view(left.profile) == opt_view(right.profile)
    &&& left.renew_before_days == right.renew_before_days
}

/// Whether a managed certificate's order policy is unchanged.
pub fn same_certificate_policy(left: &AcmeCertificateConfig, right: &AcmeCertificateConfig) -> (r:
    bool)
    ensures
        r == same_certificate_spec(*left, *right),
{
    str_eq(left.id.as_str(), right.id.as_str()) && same_text_list(&left.hosts, &right.hosts)
        && str_eq(left.issuer.as_str(), right.issuer.as_str()) && left.challenge
        == right.challenge && same_opt_text(&left.challenge_listener, &right.challenge_listener)
        && same_opt_text(&left.dns_provider, &right.dns_provider) && same_opt_text(
        &left.profile,
        &right.profile,
    ) && left.renew_before_days == right.renew_before_days
}

} // verus!
