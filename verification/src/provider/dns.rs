//! Bounded DNS answer normalization.

use vstd::prelude::*;
use crate::net::{IpAddress, SocketAddress};
use crate::schema::EndpointConfig;
use crate::text::utf8;
use crate::web::{opt_view, url_from_str};
use super::{
    DnsProviderConfig,
    ProviderError,
    endpoint,
    endpoint_matches,
    dns_endpoint_id,
    dns_endpoint_id_bytes,
    endpoint_url_text,
};

verus! {

/// The order of `std::net::IpAddr`: every IPv4 address before every IPv6
/// address, each family by numeric value.
pub open spec fn ip_lt(a: IpAddress, b: IpAddress) -> bool {
    match (a, b) {
        (IpAddress::V4(x), IpAddress::V4(y)) => x < y,
        (IpAddress::V4(_), IpAddress::V6(_)) => true,
        (IpAddress::V6(_), IpAddress::V4(_)) => false,
        (IpAddress::V6(x), IpAddress::V6(y)) => x < y,
    }
}

fn ip_less(a: IpAddress, b: IpAddress) -> (r: bool)
    ensures
        r == ip_lt(a, b),
{
    match (a, b) {
        (IpAddress::V4(x), IpAddress::V4(y)) => x < y,
        (IpAddress::V4(_), IpAddress::V6(_)) => true,
        (IpAddress::V6(_), IpAddress::V4(_)) => false,
        (IpAddress::V6(x), IpAddress::V6(y)) => x < y,
    }
}

/// Strictly increasing in address order, so without duplicates.
pub open spec fn strictly_sorted(s: Seq<IpAddress>) -> bool {
    forall|i: int, j: int| 0 <= i < j < s.len() ==> ip_lt(#[trigger] s[i], #[trigger] s[j])
}

/// `s` holds exactly the addresses of `a`, each once, in address order.
pub open spec fn sorted_distinct(s: Seq<IpAddress>, a: Seq<IpAddress>) -> bool {
    &&& strictly_sorted(s)
    &&& forall|x: IpAddress| s.contains(x) <==> a.contains(x)
}

proof fn lemma_ip_lt_total(a: IpAddress, b: IpAddress)
    ensures
        a == b || ip_lt(a, b) || ip_lt(b, a),
        !(ip_lt(a, b) && ip_lt(b, a)),
        !ip_lt(a, a),
{
}

proof fn lemma_ip_lt_trans(a: IpAddress, b: IpAddress, c: IpAddress)
    requires
        ip_lt(a, b),
        ip_lt(b, c),
    ensures
        ip_lt(a, c),
{
}

/// Two orderings of the same answers agree: the sorted, deduplicated form
/// of a set of addresses is unique.
pub proof fn lemma_sorted_distinct_unique(s: Seq<IpAddress>, t: Seq<IpAddress>, a: Seq<IpAddress>)
    requires
        sorted_distinct(s, a),
        sorted_distinct(t, a),
    ensures
        s == t,
    decreases s.len(),
{
    if s.len() == 0 {
        if t.len() > 0 {
            assert(t.contains(t[0]));
            assert(s.contains(t[0]));
        }
        assert(s =~= t);
    } else {
        assert(s.contains(s[0]));
        assert(t.contains(s[0]));
        let j = choose|j: int| 0 <= j < t.len() && #[trigger] t[j] == s[0];
        assert(t.contains(t[0]));
        assert(s.contains(t[0]));
        let i = choose|i: int| 0 <= i < s.len() && #[trigger] s[i] == t[0];
        if j > 0 {
            assert(ip_lt(t[0], t[j]));
            if i > 0 {
                assert(ip_lt(s[0], s[i]));
                lemma_ip_lt_trans(s[0], t[0], s[0]);
            } else {
                lemma_ip_lt_total(s[0], s[0]);
            }
        }
        if i > 0 {
            assert(ip_lt(s[0], s[i]));
            lemma_ip_lt_total(t[0], t[0]);
        }
        assert(s[0] == t[0]);
        let s1 = s.drop_first();
        let t1 = t.drop_first();
        let a1 = s1;
        assert forall|x: IpAddress| t1.contains(x) <==> a1.contains(x) by {
            if t1.contains(x) {
                let k = choose|k: int| 0 <= k < t1.len() && #[trigger] t1[k] == x;
                assert(t[k + 1] == x);
                assert(t.contains(x));
                assert(s.contains(x));
                let m = choose|m: int| 0 <= m < s.len() && #[trigger] s[m] == x;
                assert(ip_lt(t[0], t[k + 1]));
                if m == 0 {
                    lemma_ip_lt_total(x, x);
                }
                assert(s1[m - 1] == x);
            }
            if a1.contains(x) {
                let k = choose|k: int| 0 <= k < s1.len() && #[trigger] s1[k] == x;
                assert(s[k + 1] == x);
                assert(s.contains(x));
                assert(t.contains(x));
                let m = choose|m: int| 0 <= m < t.len() && #[trigger] t[m] == x;
                assert(ip_lt(s[0], s[k + 1]));
                if m == 0 {
                    lemma_ip_lt_total(x, x);
                }
                assert(t1[m - 1] == x);
            }
        }
        assert forall|x: IpAddress| s1.contains(x) <==> a1.contains(x) by {}
        lemma_sorted_distinct_unique(s1, t1, a1);
        assert(s =~= seq![s[0]] + s1);
        assert(t =~= seq![t[0]] + t1);
    }
}

/// The answers in address order with duplicates removed.
pub fn sorted_answers(addresses: &[IpAddress]) -> (r: Vec<IpAddress>)
    ensures
        sorted_distinct(r@, addresses@),
{
    let mut out: Vec<IpAddress> = Vec::new();
    let mut k: usize = 0;
    while k < addresses.len()
        invariant
            k <= addresses@.len(),
            sorted_distinct(out@, addresses@.take(k as int)),
        decreases addresses@.len() - k,
    {
        let x = addresses[k];
        let mut i: usize = 0;
        while i < out.len() && ip_less(out[i], x)
            invariant
                i <= out@.len(),
                forall|j: int| 0 <= j < i ==> ip_lt(#[trigger] out@[j], x),
            decreases out@.len() - i,
        {
            i += 1;
        }
        let ghost before = out@;
        proof {
            assert(addresses@.take(k + 1) =~= addresses@.take(k as int).push(x));
        }
        if i < out.len() && out[i] == x {
            proof {
                assert forall|y: IpAddress| before.contains(y) <==> addresses@.take(k + 1).contains(y) by {
                    if addresses@.take(k + 1).contains(y) && y == x {
                        assert(before[i as int] == x);
                    }
                    if addresses@.take(k + 1).contains(y) && y != x {
                        let m = choose|m: int| 0 <= m < k + 1 && #[trigger] addresses@.take(k + 1)[m] == y;
                        assert(addresses@.take(k as int)[m] == y);
                    }
                    if before.contains(y) {
                        assert(addresses@.take(k as int).contains(y));
                        let m = choose|m: int| 0 <= m < k && #[trigger] addresses@.take(k as int)[m] == y;
                        assert(addresses@.take(k + 1)[m] == y);
                    }
                }
            }
        } else {
            out.insert(i, x);
            proof {
                let after = out@;
                assert(after =~= before.insert(i as int, x));
                assert forall|a: int, b: int| 0 <= a < b < after.len() implies ip_lt(
                    #[trigger] after[a],
                    #[trigger] after[b],
                ) by {
                    if b < i {
                    } else if b == i {
                        assert(after[a] == before[a]);
                    } else if a < i {
                        assert(after[b] == before[b - 1]);
                        if i < before.len() {
                            lemma_ip_lt_total(before[i as int], x);
                            if a < i {
                                assert(after[a] == before[a]);
                            }
                            assert(ip_lt(x, before[i as int]));
                            if b - 1 > i {
                                assert(ip_lt(before[i as int], before[b - 1]));
                                lemma_ip_lt_trans(x, before[i as int], before[b - 1]);
                            }
                            lemma_ip_lt_trans(after[a], x, after[b]);
                        }
                    } else if a == i {
                        assert(after[b] == before[b - 1]);
                        lemma_ip_lt_total(before[i as int], x);
                        assert(ip_lt(x, before[i as int]));
                        if b - 1 > i {
                            assert(ip_lt(before[i as int], before[b - 1]));
                            lemma_ip_lt_trans(x, before[i as int], before[b - 1]);
                        }
                    } else {
                        assert(after[a] == before[a - 1]);
                        assert(after[b] == before[b - 1]);
                    }
                }
                assert forall|y: IpAddress| after.contains(y) <==> addresses@.take(k + 1).contains(y) by {
                    if after.contains(y) {
                        let m = choose|m: int| 0 <= m < after.len() && #[trigger] after[m] == y;
                        if m < i {
                            assert(before[m] == y);
                            assert(before.contains(y));
                        } else if m > i {
                            assert(before[m - 1] == y);
                            assert(before.contains(y));
                        }
                        if y != x {
                            assert(before.contains(y));
                            assert(addresses@.take(k as int).contains(y));
                            let n = choose|n: int| 0 <= n < k && #[trigger] addresses@.take(k as int)[n] == y;
                            assert(addresses@.take(k + 1)[n] == y);
                        } else {
                            assert(addresses@.take(k + 1)[k as int] == x);
                        }
                    }
                    if addresses@.take(k + 1).contains(y) {
                        if y == x {
                            assert(after[i as int] == x);
                        } else {
                            let n = choose|n: int| 0 <= n < k + 1 && #[trigger] addresses@.take(k + 1)[n] == y;
                            assert(addresses@.take(k as int)[n] == y);
                            assert(before.contains(y));
                            let m = choose|m: int| 0 <= m < before.len() && #[trigger] before[m] == y;
                            if m < i {
                                assert(after[m] == y);
                            } else {
                                assert(after[m + 1] == y);
                            }
                        }
                    }
                }
            }
        }
        k += 1;
    }
    assert(addresses@.take(addresses@.len() as int) =~= addresses@);
    out
}

/// There are no more distinct answers than raw answers.
pub proof fn lemma_sorted_distinct_len(s: Seq<IpAddress>, a: Seq<IpAddress>)
    requires
        sorted_distinct(s, a),
    ensures
        s.len() <= a.len(),
        a.len() > 0 ==> s.len() > 0,
{
    assert(s.no_duplicates()) by {
        assert forall|i: int, j: int| 0 <= i < s.len() && 0 <= j < s.len() && i != j implies s[i]
            != s[j] by {
            if i < j {
                lemma_ip_lt_total(s[i], s[j]);
            } else {
                lemma_ip_lt_total(s[j], s[i]);
            }
        }
    }
    s.unique_seq_to_set();
    a.lemma_cardinality_of_set();
    assert(s.to_set() =~= a.to_set());
    if a.len() > 0 {
        assert(a.contains(a[0]));
        assert(s.contains(a[0]));
    }
}

/// The answers of `a` in address order, each once.
pub open spec fn answer_order(a: Seq<IpAddress>) -> Seq<IpAddress> {
    choose|s: Seq<IpAddress>| sorted_distinct(s, a)
}

/// A URL that the provider template cannot produce for an answer.
pub open spec fn unparsable_answer(provider: DnsProviderConfig, s: Seq<IpAddress>) -> bool {
    exists|i: int|
        0 <= i < s.len() && #[trigger] url_from_str(
            endpoint_url_text(provider.scheme, s[i], provider.port),
        ) is None
}

/// Normalizes bounded DNS answers through the trusted provider template:
/// one endpoint per distinct address, in address order.
pub fn endpoints(provider: &DnsProviderConfig, addresses: &[IpAddress]) -> (r: Result<
    Vec<EndpointConfig>,
    ProviderError,
>)
    ensures
        sorted_distinct(answer_order(addresses@), addresses@),
        r matches Err(e) ==> e == ProviderError::Limit || e == ProviderError::Invalid,
        ({
            let s = answer_order(addresses@);
            &&& (r == Err::<Vec<EndpointConfig>, ProviderError>(ProviderError::Limit)) <==> (
            s.len() == 0 || s.len() > provider.max_answers)
            &&& (r == Err::<Vec<EndpointConfig>, ProviderError>(ProviderError::Invalid)) <==> (0
                < s.len() <= provider.max_answers && unparsable_answer(*provider, s))
            &&& r matches Ok(v) ==> v@.len() == s.len() && forall|i: int|
                0 <= i < s.len() ==> #[trigger] endpoint_matches(
                    v@[i],
                    dns_id_chars(s[i]),
                    SocketAddress { ip: s[i], port: provider.port },
                    provider.weight,
                    provider.scheme,
                    opt_view(provider.server_name),
                    opt_view(provider.ca_bundle),
                )
        }),
{
    let sorted = sorted_answers(addresses);
    proof {
        lemma_sorted_distinct_unique(answer_order(addresses@), sorted@, addresses@);
    }
    if sorted.len() == 0 || sorted.len() > provider.max_answers {
        return Err(ProviderError::Limit);
    }
    let mut out: Vec<EndpointConfig> = Vec::new();
    let mut i: usize = 0;
    while i < sorted.len()
        invariant
            i <= sorted@.len(),
            out@.len() == i,
            answer_order(addresses@) == sorted@,
            sorted_distinct(sorted@, addresses@),
            0 < sorted@.len() <= provider.max_answers,
            forall|k: int|
                0 <= k < i ==> url_from_str(
                    endpoint_url_text(provider.scheme, #[trigger] sorted@[k], provider.port),
                ) is Some,
            forall|k: int|
                0 <= k < i ==> #[trigger] endpoint_matches(
                    out@[k],
                    dns_id_chars(sorted@[k]),
                    SocketAddress { ip: sorted@[k], port: provider.port },
                    provider.weight,
                    provider.scheme,
                    opt_view(provider.server_name),
                    opt_view(provider.ca_bundle),
                ),
        decreases sorted@.len() - i,
    {
        let address = sorted[i];
        let id = dns_endpoint_id(address);
        proof {
            vstd::utf8::encode_utf8_decode_utf8(id@);
        }
        match endpoint(
            id,
            SocketAddress { ip: address, port: provider.port },
            provider.weight,
            provider.scheme,
            &provider.server_name,
            &provider.ca_bundle,
        ) {
            Ok(e) => out.push(e),
            Err(e) => {
                proof {
                    assert(url_from_str(
                        endpoint_url_text(provider.scheme, sorted@[i as int], provider.port),
                    ) is None);
                }
                return Err(e);
            },
        }
        i += 1;
    }
    Ok(out)
}

/// The sorted, deduplicated form of a set of answers is the only one:
/// whatever order the resolver returned, the endpoints come out the same.
pub proof fn lemma_answer_order_unique(s: Seq<IpAddress>, a: Seq<IpAddress>)
    requires
        sorted_distinct(s, a),
    ensures
        answer_order(a) == s,
{
    lemma_sorted_distinct_unique(answer_order(a), s, a);
}

/// The text of a DNS endpoint ID.
pub open spec fn dns_id_chars(ip: IpAddress) -> Seq<char> {
    vstd::utf8::decode_utf8(dns_endpoint_id_bytes(ip))
}

} // verus!
