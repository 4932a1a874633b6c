//! The immutable per-listener route index: routes grouped by listener and
//! ordered by route ID, route selection, and the route-set fingerprint.

use vstd::prelude::*;
use vstd::multiset::Multiset;
use crate::text::utf8;
use crate::map::OrderedMap;
use crate::schema::{Config, RouteConfig, HeaderMatch};
use crate::route::{RequestFacts, RouteScore, route_score_spec, route_match_score, host_score_spec, host_match_score, canonical_host_spec, canonical_host};
use crate::request::{request_host_spec, request_host};
use crate::error::{decimal, decimal_text};
use vstd::relations::{sorted_by, total_ordering};
use vstd::string::StrSliceExecFns;

verus! {

broadcast use vstd::seq_lib::group_to_multiset_ensures;

/// Byte-wise lexicographic order, as `str::cmp` orders texts.
pub open spec fn lex_lt(a: Seq<u8>, b: Seq<u8>) -> bool
    decreases a.len(),
{
    if a.len() == 0 {
        b.len() > 0
    } else if b.len() == 0 {
        false
    } else if a[0] != b[0] {
        a[0] < b[0]
    } else {
        lex_lt(a.drop_first(), b.drop_first())
    }
}

pub proof fn lemma_lex_irreflexive(a: Seq<u8>)
    ensures
        !lex_lt(a, a),
    decreases a.len(),
{
    if a.len() > 0 {
        lemma_lex_irreflexive(a.drop_first());
    }
}

pub proof fn lemma_lex_asymmetric(a: Seq<u8>, b: Seq<u8>)
    ensures
        !(lex_lt(a, b) && lex_lt(b, a)),
    decreases a.len(),
{
    if a.len() > 0 && b.len() > 0 && a[0] == b[0] {
        lemma_lex_asymmetric(a.drop_first(), b.drop_first());
    }
}

pub proof fn lemma_lex_transitive(a: Seq<u8>, b: Seq<u8>, c: Seq<u8>)
    requires
        lex_lt(a, b),
        lex_lt(b, c),
    ensures
        lex_lt(a, c),
    decreases a.len(),
{
    if a.len() > 0 && b.len() > 0 && c.len() > 0 && a[0] == b[0] && b[0] == c[0] {
        lemma_lex_transitive(a.drop_first(), b.drop_first(), c.drop_first());
    }
}

pub proof fn lemma_lex_total(a: Seq<u8>, b: Seq<u8>)
    ensures
        a == b || lex_lt(a, b) || lex_lt(b, a),
    decreases a.len(),
{
    if a.len() > 0 && b.len() > 0 && a[0] == b[0] {
        lemma_lex_total(a.drop_first(), b.drop_first());
        if a.drop_first() == b.drop_first() {
            assert(a =~= seq![a[0]] + a.drop_first());
            assert(b =~= seq![b[0]] + b.drop_first());
        }
    } else if a.len() == 0 && b.len() == 0 {
        assert(a =~= b);
    }
}

/// Whether `a` sorts before `b`.
pub fn bytes_lt(a: &[u8], b: &[u8]) -> (r: bool)
    ensures
        r == lex_lt(a@, b@),
{
    let mut k: usize = 0;
    assert(a@.subrange(0, a@.len() as int) =~= a@);
    assert(b@.subrange(0, b@.len() as int) =~= b@);
    while k < a.len() && k < b.len() && a[k] == b[k]
        invariant
            k <= a@.len(),
            k <= b@.len(),
            lex_lt(a@, b@) == lex_lt(a@.subrange(k as int, a@.len() as int), b@.subrange(
                k as int,
                b@.len() as int,
            )),
        decreases a@.len() - k,
    {
        proof {
            let sa = a@.subrange(k as int, a@.len() as int);
            let sb = b@.subrange(k as int, b@.len() as int);
            assert(sa.drop_first() =~= a@.subrange(k + 1, a@.len() as int));
            assert(sb.drop_first() =~= b@.subrange(k + 1, b@.len() as int));
        }
        k += 1;
    }
    if k == a.len() {
        k < b.len()
    } else if k == b.len() {
        false
    } else {
        a[k] < b[k]
    }
}

/// The UTF-8 bytes of route `x`'s ID.
pub open spec fn id_bytes(routes: Seq<RouteConfig>, x: usize) -> Seq<u8> {
    utf8(routes[x as int].id@)
}

/// Route `x` sorts before route `y`: a smaller ID, or the same ID and an
/// earlier declaration.
pub open spec fn key_lt(routes: Seq<RouteConfig>, x: usize, y: usize) -> bool {
    lex_lt(id_bytes(routes, x), id_bytes(routes, y)) || (id_bytes(routes, x) == id_bytes(
        routes,
        y,
    ) && x < y)
}

/// The route positions are in nondecreasing route-ID order.
pub open spec fn sorted_keys(routes: Seq<RouteConfig>, s: Seq<usize>) -> bool {
    forall|a: int, b: int| 0 <= a < b < s.len() ==> !key_lt(routes, #[trigger] s[b], #[trigger] s[a])
}

/// The listener `l` named by the listener list, once per mention, as
/// occurrences of route `i`.
pub open spec fn listener_hits(ls: Seq<String>, l: Seq<char>, i: usize) -> Multiset<usize>
    decreases ls.len(),
{
    if ls.len() == 0 {
        Multiset::empty()
    } else {
        let m = listener_hits(ls.drop_last(), l, i);
        if ls.last()@ == l {
            m.insert(i)
        } else {
            m
        }
    }
}

/// The routes among the first `n` that name listener `l`, once per mention.
pub open spec fn route_hits(routes: Seq<RouteConfig>, l: Seq<char>, n: int) -> Multiset<usize>
    decreases n,
{
    if n <= 0 {
        Multiset::empty()
    } else {
        route_hits(routes, l, n - 1).add(listener_hits(routes[n - 1].listeners@, l, (n - 1) as usize))
    }
}

/// Inserts route `i` into a sorted list of route positions, after every
/// route whose ID is not greater.
fn sorted_insert(list: &Vec<usize>, routes: &Vec<RouteConfig>, i: usize) -> (r: Vec<usize>)
    requires
        i < routes@.len(),
        sorted_keys(routes@, list@),
        forall|a: int| 0 <= a < list@.len() ==> #[trigger] list@[a] <= i,
    ensures
        r@.to_multiset() == list@.to_multiset().insert(i),
        sorted_keys(routes@, r@),
        forall|a: int| 0 <= a < r@.len() ==> #[trigger] r@[a] <= i,
{
    let idi = routes[i].id.as_str().as_bytes();
    let mut p: usize = 0;
    while p < list.len() && !bytes_lt(idi, routes[list[p]].id.as_str().as_bytes())
        invariant
            p <= list@.len(),
            i < routes@.len(),
            idi@ == id_bytes(routes@, i),
            forall|a: int| 0 <= a < list@.len() ==> #[trigger] list@[a] <= i,
            forall|a: int|
                0 <= a < p ==> !lex_lt(id_bytes(routes@, i), id_bytes(routes@, #[trigger] list@[a])),
        decreases list@.len() - p,
    {
        p += 1;
    }
    let mut r: Vec<usize> = Vec::new();
    let mut k: usize = 0;
    while k < list.len()
        invariant
            k <= list@.len(),
            p <= list@.len(),
            r@ == if k <= p {
                list@.subrange(0, k as int)
            } else {
                list@.subrange(0, p as int).push(i) + list@.subrange(p as int, k as int)
            },
        decreases list@.len() - k,
    {
        if k == p {
            r.push(i);
        }
        r.push(list[k]);
        proof {
            if k < p {
                assert(r@ =~= list@.subrange(0, k + 1));
            } else if k == p {
                assert(r@ =~= list@.subrange(0, p as int).push(i) + list@.subrange(
                    p as int,
                    k + 1,
                ));
            } else {
                assert(r@ =~= list@.subrange(0, p as int).push(i) + list@.subrange(
                    p as int,
                    k + 1,
                ));
            }
        }
        k += 1;
    }
    if p == list.len() {
        r.push(i);
    }
    assert(r@ =~= list@.insert(p as int, i));
    proof {
        let s = list@;
        let t = r@;
        assert(t.remove(p as int) =~= s);
        assert(t[p as int] == i);
        assert(t.to_multiset().count(i) > 0);
        assert(t.to_multiset() =~= s.to_multiset().insert(i));
        assert forall|a: int, b: int| 0 <= a < b < t.len() implies !key_lt(
            routes@,
            #[trigger] t[b],
            #[trigger] t[a],
        ) by {
            lemma_insert_sorted(routes@, s, p as int, i, a, b);
        }
    }
    r
}

proof fn lemma_insert_sorted(
    routes: Seq<RouteConfig>,
    s: Seq<usize>,
    p: int,
    i: usize,
    a: int,
    b: int,
)
    requires
        0 <= p <= s.len(),
        sorted_keys(routes, s),
        forall|c: int| 0 <= c < s.len() ==> #[trigger] s[c] <= i,
        forall|c: int| 0 <= c < p ==> !lex_lt(id_bytes(routes, i), id_bytes(routes, #[trigger] s[c])),
        p < s.len() ==> lex_lt(id_bytes(routes, i), id_bytes(routes, s[p])),
        0 <= a < b < s.len() + 1,
    ensures
        !key_lt(routes, s.insert(p, i)[b], s.insert(p, i)[a]),
{
    let t = s.insert(p, i);
    if b < p {
        assert(t[a] == s[a] && t[b] == s[b]);
    } else if b == p {
        assert(t[a] == s[a] && t[b] == i);
        assert(!lex_lt(id_bytes(routes, i), id_bytes(routes, s[a])));
    } else if a == p {
        assert(t[a] == i && t[b] == s[b - 1]);
        let x = s[b - 1];
        assert(!key_lt(routes, x, s[p])) by {
            if b - 1 > p {
                assert(!key_lt(routes, s[b - 1], s[p]));
            } else {
                lemma_lex_irreflexive(id_bytes(routes, x));
            }
        }
        if lex_lt(id_bytes(routes, x), id_bytes(routes, i)) {
            lemma_lex_transitive(id_bytes(routes, x), id_bytes(routes, i), id_bytes(routes, s[p]));
        }
    } else if a < p {
        assert(t[a] == s[a] && t[b] == s[b - 1]);
    } else {
        assert(t[a] == s[a - 1] && t[b] == s[b - 1]);
    }
}

/// Route positions grouped by listener, each group in route-ID order.
pub struct RouteIndex {
    by_listener: OrderedMap<Vec<usize>>,
    fingerprint: u64,
}

impl RouteIndex {
    /// The positions of the routes of listener `l`, in order.
    pub closed spec fn routes_for(&self, l: Seq<char>) -> Seq<usize> {
        match self.by_listener.spec_get(l) {
            Some(v) => v@,
            None => Seq::empty(),
        }
    }

    /// The route-set fingerprint held by the index.
    pub closed spec fn fingerprint_value(&self) -> u64 {
        self.fingerprint
    }

    /// Every position held is a route of a configuration with `n` routes.
    pub open spec fn fits(&self, n: int) -> bool {
        forall|l: Seq<char>, a: int|
            0 <= a < self.routes_for(l).len() ==> #[trigger] self.routes_for(l)[a] < n
    }

    /// Groups the routes of a configuration by listener; each group holds a
    /// route once per mention of the listener, in route-ID order.
    pub fn compile(config: &Config) -> (r: RouteIndex)
        ensures
            forall|l: Seq<char>|
                (#[trigger] r.routes_for(l)).to_multiset() == route_hits(
                    config.routes@,
                    l,
                    config.routes@.len() as int,
                ),
            forall|l: Seq<char>| sorted_keys(config.routes@, #[trigger] r.routes_for(l)),
            r.fits(config.routes@.len() as int),
            r.fingerprint_value() == fingerprint_spec(config.routes@),
    {
        let routes = &config.routes;
        let mut by_listener: OrderedMap<Vec<usize>> = OrderedMap::new();
        let mut i: usize = 0;
        while i < routes.len()
            invariant
                i <= routes@.len(),
                forall|l: Seq<char>|
                    (#[trigger] list_of(by_listener, l)).to_multiset() == route_hits(
                        routes@,
                        l,
                        i as int,
                    ),
                forall|l: Seq<char>| sorted_keys(routes@, #[trigger] list_of(by_listener, l)),
                forall|l: Seq<char>, a: int|
                    0 <= a < list_of(by_listener, l).len() ==> #[trigger] list_of(
                        by_listener,
                        l,
                    )[a] < i,
            decreases routes@.len() - i,
        {
            let listeners = &routes[i].listeners;
            let mut k: usize = 0;
            while k < listeners.len()
                invariant
                    i < routes@.len(),
                    *listeners == routes@[i as int].listeners,
                    k <= listeners@.len(),
                    forall|l: Seq<char>|
                        (#[trigger] list_of(by_listener, l)).to_multiset() == route_hits(
                            routes@,
                            l,
                            i as int,
                        ).add(listener_hits(listeners@.take(k as int), l, i)),
                    forall|l: Seq<char>| sorted_keys(routes@, #[trigger] list_of(by_listener, l)),
                    forall|l: Seq<char>, a: int|
                        0 <= a < list_of(by_listener, l).len() ==> #[trigger] list_of(
                            by_listener,
                            l,
                        )[a] <= i,
                decreases listeners@.len() - k,
            {
                let name = &listeners[k];
                let ghost l0 = name@;
                let updated = match by_listener.get(name.as_str()) {
                    Some(list) => {
                        proof {
                            assert(list@ == list_of(by_listener, l0));
                            assert(sorted_keys(routes@, list_of(by_listener, l0)));
                            assert forall|a: int| 0 <= a < list@.len() implies #[trigger] list@[a]
                                <= i by {
                                assert(list@[a] == list_of(by_listener, l0)[a]);
                            }
                        }
                        sorted_insert(list, routes, i)
                    },
                    None => {
                        let empty: Vec<usize> = Vec::new();
                        sorted_insert(&empty, routes, i)
                    },
                };
                let ghost before = by_listener;
                proof {
                    assert(updated@.to_multiset() == list_of(before, l0).to_multiset().insert(i));
                }
                by_listener.insert(name.clone(), updated);
                proof {
                    assert(listeners@.take(k + 1).drop_last() =~= listeners@.take(k as int));
                    assert(listeners@.take(k + 1).last() == listeners@[k as int]);
                    assert forall|l: Seq<char>|
                        (#[trigger] list_of(by_listener, l)).to_multiset() == route_hits(
                            routes@,
                            l,
                            i as int,
                        ).add(listener_hits(listeners@.take(k + 1), l, i)) by {
                        if l == l0 {
                            assert(list_of(by_listener, l) == updated@);
                            assert(route_hits(routes@, l, i as int).add(
                                listener_hits(listeners@.take(k as int), l, i).insert(i),
                            ) =~= route_hits(routes@, l, i as int).add(
                                listener_hits(listeners@.take(k as int), l, i),
                            ).insert(i));
                        } else {
                            assert(list_of(by_listener, l) == list_of(before, l));
                        }
                    }
                    assert forall|l: Seq<char>| sorted_keys(
                        routes@,
                        #[trigger] list_of(by_listener, l),
                    ) by {
                        if l != l0 {
                            assert(list_of(by_listener, l) == list_of(before, l));
                        }
                    }
                    assert forall|l: Seq<char>, a: int|
                        0 <= a < list_of(by_listener, l).len() implies #[trigger] list_of(
                        by_listener,
                        l,
                    )[a] <= i by {
                        if l != l0 {
                            assert(list_of(by_listener, l) == list_of(before, l));
                        }
                    }
                }
                k += 1;
            }
            proof {
                assert(listeners@.take(listeners@.len() as int) =~= listeners@);
            }
            i += 1;
        }
        let index = RouteIndex { by_listener, fingerprint: route_fingerprint(routes) };
        assert forall|l: Seq<char>| #[trigger] index.routes_for(l) == list_of(by_listener, l) by {}
        index
    }

    /// Stable route fingerprint for diagnostics, not for authentication or
    /// integrity checks.
    pub fn fingerprint(&self) -> (r: u64)
        ensures
            r == self.fingerprint_value(),
    {
        self.fingerprint
    }

    /// Deterministic route IDs for one listener.
    pub fn route_ids<'a>(&self, config: &'a Config, listener: &str) -> (r: Vec<&'a str>)
        requires
            self.fits(config.routes@.len() as int),
        ensures
            r@.len() == self.routes_for(listener@).len(),
            forall|a: int|
                0 <= a < r@.len() ==> (#[trigger] r@[a])@ == config.routes@[self.routes_for(
                    listener@,
                )[a] as int].id@,
    {
        let mut out: Vec<&'a str> = Vec::new();
        match self.by_listener.get(listener) {
            None => out,
            Some(list) => {
                let mut a: usize = 0;
                while a < list.len()
                    invariant
                        a <= list@.len(),
                        list@ == self.routes_for(listener@),
                        self.fits(config.routes@.len() as int),
                        out@.len() == a,
                        forall|b: int|
                            0 <= b < a ==> (#[trigger] out@[b])@ == config.routes@[list@[b] as int].id@,
                    decreases list@.len() - a,
                {
                    assert(list@[a as int] == self.routes_for(listener@)[a as int]);
                    out.push(config.routes[list[a]].id.as_str());
                    a += 1;
                }
                out
            },
        }
    }
}

/// The group of listener `l` in a map of groups.
pub open spec fn list_of(m: OrderedMap<Vec<usize>>, l: Seq<char>) -> Seq<usize> {
    match m.spec_get(l) {
        Some(v) => v@,
        None => Seq::empty(),
    }
}

pub const FNV_OFFSET: u64 = 0xcbf2_9ce4_8422_2325;

pub const FNV_PRIME: u64 = 0x0000_0100_0000_01b3;

/// FNV-1a over a byte string, from state `h`.
pub open spec fn fnv_bytes(h: u64, b: Seq<u8>) -> u64
    decreases b.len(),
{
    if b.len() == 0 {
        h
    } else {
        (fnv_bytes(h, b.drop_last()) ^ (b.last() as u64)).wrapping_mul(FNV_PRIME)
    }
}

/// The eight little-endian bytes of `n`.
pub open spec fn le_bytes(n: u64) -> Seq<u8> {
    Seq::new(8, |k: int| ((n >> ((8 * k) as u64)) & 0xff) as u8)
}

/// One named field: both lengths as eight little-endian bytes, each before
/// its bytes.
pub open spec fn field_bytes(name: Seq<u8>, value: Seq<u8>) -> Seq<u8> {
    le_bytes(name.len() as u64) + name + le_bytes(value.len() as u64) + value
}

/// One field per value, in order.
pub open spec fn fields_bytes(name: Seq<u8>, values: Seq<Seq<u8>>) -> Seq<u8>
    decreases values.len(),
{
    if values.len() == 0 {
        Seq::empty()
    } else {
        fields_bytes(name, values.drop_last()) + field_bytes(name, values.last())
    }
}

/// The byte strings held by a list of buffers.
pub open spec fn byte_views(s: Seq<Vec<u8>>) -> Seq<Seq<u8>> {
    s.map_values(|v: Vec<u8>| v@)
}

pub open spec fn lex_le(a: Seq<u8>, b: Seq<u8>) -> bool {
    a == b || lex_lt(a, b)
}

/// The order in which a set of texts is hashed.
pub open spec fn text_order() -> spec_fn(Seq<u8>, Seq<u8>) -> bool {
    |a: Seq<u8>, b: Seq<u8>| lex_le(a, b)
}

pub proof fn lemma_text_order_total()
    ensures
        total_ordering(text_order()),
{
    let r = text_order();
    assert forall|x: Seq<u8>, y: Seq<u8>| #[trigger] r(x, y) && #[trigger] r(y, x) implies x
        == y by {
        lemma_lex_asymmetric(x, y);
    }
    assert forall|x: Seq<u8>, y: Seq<u8>, z: Seq<u8>| #[trigger] r(x, y) && #[trigger] r(
        y,
        z,
    ) implies r(x, z) by {
        if x != y && y != z {
            lemma_lex_transitive(x, y, z);
        }
    }
    assert forall|x: Seq<u8>, y: Seq<u8>| #[trigger] r(x, y) || #[trigger] r(y, x) by {
        lemma_lex_total(x, y);
    }
}

/// A set of texts is hashed as one field per text, in byte order.
pub open spec fn set_bytes(name: Seq<u8>, values: Seq<Seq<u8>>) -> Seq<u8> {
    fields_bytes(name, values.sort_by(text_order()))
}

pub open spec fn texts(values: Seq<String>) -> Seq<Seq<u8>> {
    values.map_values(|s: String| utf8(s@))
}

/// `V:name:value` for a value predicate, `P:name:` for a presence one.
pub open spec fn header_text(h: HeaderMatch) -> Seq<u8> {
    match h.value {
        Some(v) => utf8("V:"@) + utf8(h.name@) + utf8(":"@) + utf8(v@),
        None => utf8("P:"@) + utf8(h.name@) + utf8(":"@),
    }
}

pub open spec fn header_texts(hs: Seq<HeaderMatch>) -> Seq<Seq<u8>> {
    hs.map_values(|h: HeaderMatch| header_text(h))
}

/// The decimal text of a priority, with a leading `-` when negative.
pub open spec fn priority_bytes(p: i32) -> Seq<u8> {
    if p < 0 {
        utf8("-"@) + utf8(decimal_text((-p) as nat))
    } else {
        utf8(decimal_text(p as nat))
    }
}

/// The set-valued fields of a route.
pub open spec fn route_sets_bytes(r: RouteConfig) -> Seq<u8> {
    set_bytes(utf8("listener"@), texts(r.listeners@)) + set_bytes(utf8("host"@), texts(r.hosts@))
        + set_bytes(utf8("path"@), texts(r.paths@)) + set_bytes(
        utf8("prefix"@),
        texts(r.path_prefixes@),
    ) + set_bytes(utf8("method"@), texts(r.methods@)) + set_bytes(
        utf8("header"@),
        header_texts(r.headers@),
    )
}

/// The default flag, priority, middleware chain and upstream of a route.
pub open spec fn route_tail_bytes(r: RouteConfig) -> Seq<u8> {
    field_bytes(
        utf8("default"@),
        if r.default {
            utf8("true"@)
        } else {
            utf8("false"@)
        },
    ) + field_bytes(utf8("priority"@), priority_bytes(r.priority)) + fields_bytes(
        utf8("middleware"@),
        texts(r.middlewares@),
    ) + field_bytes(
        utf8("upstream"@),
        match r.upstream_group {
            Some(u) => utf8(u@),
            None => utf8("<none>"@),
        },
    )
}

/// Everything of one route that the fingerprint covers.
pub open spec fn route_bytes(r: RouteConfig) -> Seq<u8> {
    field_bytes(utf8("route"@), utf8(r.id@)) + route_sets_bytes(r) + route_tail_bytes(r)
}

/// The order in which routes are hashed: by ID, then by declaration.
pub open spec fn index_order(routes: Seq<RouteConfig>) -> spec_fn(usize, usize) -> bool {
    |x: usize, y: usize| !key_lt(routes, y, x)
}

pub open spec fn route_order(routes: Seq<RouteConfig>) -> Seq<usize> {
    Seq::new(routes.len(), |i: int| i as usize).sort_by(index_order(routes))
}

/// The routes at the given positions, hashed one after another.
pub open spec fn routes_bytes(routes: Seq<RouteConfig>, order: Seq<usize>) -> Seq<u8>
    decreases order.len(),
{
    if order.len() == 0 {
        Seq::empty()
    } else {
        routes_bytes(routes, order.drop_last()) + route_bytes(routes[order.last() as int])
    }
}

/// The route-set fingerprint: FNV-1a over every route in ID order.
pub open spec fn fingerprint_spec(routes: Seq<RouteConfig>) -> u64 {
    fnv_bytes(FNV_OFFSET, routes_bytes(routes, route_order(routes)))
}

pub proof fn lemma_key_order_total(routes: Seq<RouteConfig>)
    ensures
        total_ordering(index_order(routes)),
{
    let r = index_order(routes);
    assert forall|x: usize| #[trigger] r(x, x) by {
        lemma_lex_irreflexive(id_bytes(routes, x));
    }
    assert forall|x: usize, y: usize| #[trigger] r(x, y) && #[trigger] r(y, x) implies x == y by {
        lemma_lex_total(id_bytes(routes, x), id_bytes(routes, y));
    }
    assert forall|x: usize, y: usize, z: usize| #[trigger] r(x, y) && #[trigger] r(y, z) implies r(
        x,
        z,
    ) by {
        let (a, b, c) = (id_bytes(routes, x), id_bytes(routes, y), id_bytes(routes, z));
        lemma_lex_total(a, b);
        lemma_lex_total(b, c);
        lemma_lex_total(a, c);
        lemma_lex_asymmetric(a, c);
        if lex_lt(c, a) {
            if lex_lt(a, b) {
                lemma_lex_transitive(c, a, b);
                lemma_lex_asymmetric(b, c);
            } else if a == b {
                lemma_lex_asymmetric(b, c);
            } else {
                lemma_lex_transitive(b, c, a);
                lemma_lex_asymmetric(a, b);
            }
        }
    }
    assert forall|x: usize, y: usize| #[trigger] r(x, y) || #[trigger] r(y, x) by {
        let (a, b) = (id_bytes(routes, x), id_bytes(routes, y));
        lemma_lex_asymmetric(a, b);
    }
}

/// Appends `s` to `buf`.
fn append(buf: &mut Vec<u8>, s: &[u8])
    ensures
        final(buf)@ == old(buf)@ + s@,
{
    let mut k: usize = 0;
    while k < s.len()
        invariant
            k <= s@.len(),
            buf@ == old(buf)@ + s@.subrange(0, k as int),
        decreases s@.len() - k,
    {
        buf.push(s[k]);
        proof {
            assert(buf@ =~= old(buf)@ + s@.subrange(0, k + 1));
        }
        k += 1;
    }
    proof {
        assert(s@.subrange(0, s@.len() as int) =~= s@);
    }
}

/// Appends the eight little-endian bytes of `n`.
fn append_le(buf: &mut Vec<u8>, n: u64)
    ensures
        final(buf)@ == old(buf)@ + le_bytes(n),
{
    let mut k: u64 = 0;
    while k < 8
        invariant
            k <= 8,
            buf@ == old(buf)@ + le_bytes(n).subrange(0, k as int),
        decreases 8 - k,
    {
        buf.push(((n >> (8 * k)) & 0xff) as u8);
        proof {
            assert(buf@ =~= old(buf)@ + le_bytes(n).subrange(0, k + 1));
        }
        k += 1;
    }
    proof {
        assert(le_bytes(n).subrange(0, 8) =~= le_bytes(n));
    }
}

fn append_field(buf: &mut Vec<u8>, name: &[u8], value: &[u8])
    ensures
        final(buf)@ == old(buf)@ + field_bytes(name@, value@),
{
    append_le(buf, name.len() as u64);
    append(buf, name);
    append_le(buf, value.len() as u64);
    append(buf, value);
    proof {
        assert(buf@ =~= old(buf)@ + field_bytes(name@, value@));
    }
}

fn append_fields(buf: &mut Vec<u8>, name: &[u8], values: &Vec<Vec<u8>>)
    ensures
        final(buf)@ == old(buf)@ + fields_bytes(name@, byte_views(values@)),
{
    let ghost vs = byte_views(values@);
    let mut k: usize = 0;
    while k < values.len()
        invariant
            k <= values@.len(),
            vs == byte_views(values@),
            buf@ == old(buf)@ + fields_bytes(name@, vs.take(k as int)),
        decreases values@.len() - k,
    {
        append_field(buf, name, values[k].as_slice());
        proof {
            assert(vs.take(k + 1).drop_last() =~= vs.take(k as int));
            assert(vs.take(k + 1).last() == values@[k as int]@);
            assert(buf@ =~= old(buf)@ + fields_bytes(name@, vs.take(k + 1)));
        }
        k += 1;
    }
    proof {
        assert(vs.take(values@.len() as int) =~= vs);
    }
}

/// The texts in byte order.
fn sort_texts(values: Vec<Vec<u8>>) -> (r: Vec<Vec<u8>>)
    ensures
        byte_views(r@) == byte_views(values@).sort_by(
            text_order(),
        ),
{
    let ghost vs = byte_views(values@);
    let mut out: Vec<Vec<u8>> = Vec::new();
    let mut k: usize = 0;
    while k < values.len()
        invariant
            k <= values@.len(),
            vs == byte_views(values@),
            sorted_by(byte_views(out@), text_order()),
            byte_views(out@).to_multiset() == vs.take(k as int).to_multiset(),
        decreases values@.len() - k,
    {
        let x = &values[k];
        let mut p: usize = 0;
        while p < out.len() && !bytes_lt(x.as_slice(), out[p].as_slice())
            invariant
                p <= out@.len(),
                forall|a: int| 0 <= a < p ==> !lex_lt(x@, #[trigger] out@[a]@),
            decreases out@.len() - p,
        {
            p += 1;
        }
        let ghost before = byte_views(out@);
        out.insert(p, x.clone());
        proof {
            let after = byte_views(out@);
            assert(after =~= before.insert(p as int, x@));
            assert(after.remove(p as int) =~= before);
            assert(after[p as int] == x@);
            assert(after.to_multiset() =~= before.to_multiset().insert(x@));
            assert(vs.take(k + 1) =~= vs.take(k as int).push(x@));
            lemma_text_order_total();
            assert forall|a: int, b: int| 0 <= a < b < after.len() implies (#[trigger] text_order()(
                after[a],
                after[b],
            )) by {
                lemma_insert_texts_sorted(before, p as int, x@, a, b);
            }
        }
        k += 1;
    }
    proof {
        assert(vs.take(values@.len() as int) =~= vs);
        lemma_text_order_total();
        vs.lemma_sort_by_ensures(text_order());
        vstd::seq_lib::lemma_sorted_unique(
            byte_views(out@),
            vs.sort_by(text_order()),
            text_order(),
        );
    }
    out
}

proof fn lemma_insert_texts_sorted(s: Seq<Seq<u8>>, p: int, x: Seq<u8>, a: int, b: int)
    requires
        0 <= p <= s.len(),
        sorted_by(s, text_order()),
        forall|c: int| 0 <= c < p ==> !lex_lt(x, #[trigger] s[c]),
        p < s.len() ==> lex_lt(x, s[p]),
        0 <= a < b < s.len() + 1,
    ensures
        lex_le(s.insert(p, x)[a], s.insert(p, x)[b]),
{
    let t = s.insert(p, x);
    lemma_text_order_total();
    if b < p {
        assert(t[a] == s[a] && t[b] == s[b]);
        assert(text_order()(s[a], s[b]));
    } else if b == p {
        assert(t[a] == s[a] && t[b] == x);
        lemma_lex_total(s[a], x);
    } else if a == p {
        assert(t[a] == x && t[b] == s[b - 1]);
        if b - 1 > p {
            assert(text_order()(s[p], s[b - 1]));
            if s[p] != s[b - 1] {
                lemma_lex_transitive(x, s[p], s[b - 1]);
            }
        }
    } else if a < p {
        assert(t[a] == s[a] && t[b] == s[b - 1]);
        assert(text_order()(s[a], s[b - 1]));
    } else {
        assert(t[a] == s[a - 1] && t[b] == s[b - 1]);
        assert(text_order()(s[a - 1], s[b - 1]));
    }
}

fn copy_bytes(s: &[u8]) -> (r: Vec<u8>)
    ensures
        r@ == s@,
{
    let mut r: Vec<u8> = Vec::new();
    append(&mut r, s);
    assert(r@ =~= s@);
    r
}

fn strings_bytes(values: &Vec<String>) -> (r: Vec<Vec<u8>>)
    ensures
        byte_views(r@) == texts(values@),
{
    let mut r: Vec<Vec<u8>> = Vec::new();
    let mut k: usize = 0;
    while k < values.len()
        invariant
            k <= values@.len(),
            r@.len() == k,
            byte_views(r@) == texts(values@).take(k as int),
        decreases values@.len() - k,
    {
        let ghost before = r@;
        let t = copy_bytes(values[k].as_str().as_bytes());
        assert(t@ == texts(values@)[k as int]);
        r.push(t);
        proof {
            assert(r@ == before.push(t));
            assert forall|j: int| 0 <= j < k + 1 implies #[trigger] byte_views(r@)[j] == texts(
                values@,
            ).take(k + 1)[j] by {
                assert(byte_views(r@).len() == r@.len());
                assert(byte_views(r@)[j] == r@[j]@);
                if j < k {
                    assert(r@[j] == before[j]);
                    assert(byte_views(before)[j] == before[j]@);
                    assert(byte_views(before)[j] == texts(values@).take(k as int)[j]);
                    assert(texts(values@).take(k as int)[j] == texts(values@)[j]);
                } else {
                    assert(r@[j] == t);
                }
            }
            assert(byte_views(r@) =~= texts(values@).take(k + 1));
        }
        k += 1;
    }
    assert(texts(values@).take(values@.len() as int) =~= texts(values@));
    r
}

fn headers_bytes(hs: &Vec<HeaderMatch>) -> (r: Vec<Vec<u8>>)
    ensures
        byte_views(r@) == header_texts(hs@),
{
    let mut r: Vec<Vec<u8>> = Vec::new();
    let mut k: usize = 0;
    while k < hs.len()
        invariant
            k <= hs@.len(),
            r@.len() == k,
            byte_views(r@) == header_texts(hs@).take(k as int),
        decreases hs@.len() - k,
    {
        let h = &hs[k];
        let mut t: Vec<u8> = Vec::new();
        match &h.value {
            Some(v) => {
                append(&mut t, "V:".as_bytes());
                append(&mut t, h.name.as_str().as_bytes());
                append(&mut t, ":".as_bytes());
                append(&mut t, v.as_str().as_bytes());
            },
            None => {
                append(&mut t, "P:".as_bytes());
                append(&mut t, h.name.as_str().as_bytes());
                append(&mut t, ":".as_bytes());
            },
        }
        assert(t@ =~= header_text(*h));
        assert(t@ == header_texts(hs@)[k as int]);
        let ghost before = r@;
        r.push(t);
        assert(r@ == before.push(t));
        proof {
            assert forall|j: int| 0 <= j < k + 1 implies #[trigger] byte_views(r@)[j]
                == header_texts(hs@).take(k + 1)[j] by {
                if j < k {
                    assert(byte_views(before)[j] == header_texts(hs@).take(k as int)[j]);
                }
            }
            assert(byte_views(r@) =~= header_texts(hs@).take(k + 1));
        }
        k += 1;
    }
    assert(header_texts(hs@).take(hs@.len() as int) =~= header_texts(hs@));
    r
}

fn append_set(buf: &mut Vec<u8>, name: &[u8], values: Vec<Vec<u8>>)
    ensures
        final(buf)@ == old(buf)@ + set_bytes(name@, byte_views(values@)),
{
    let sorted = sort_texts(values);
    append_fields(buf, name, &sorted);
}

fn append_route_sets(buf: &mut Vec<u8>, r: &RouteConfig)
    ensures
        final(buf)@ == old(buf)@ + route_sets_bytes(*r),
{
    let ghost b0 = buf@;
    append_set(buf, "listener".as_bytes(), strings_bytes(&r.listeners));
    let ghost b1 = buf@;
    append_set(buf, "host".as_bytes(), strings_bytes(&r.hosts));
    let ghost b2 = buf@;
    append_set(buf, "path".as_bytes(), strings_bytes(&r.paths));
    let ghost b3 = buf@;
    append_set(buf, "prefix".as_bytes(), strings_bytes(&r.path_prefixes));
    let ghost b4 = buf@;
    append_set(buf, "method".as_bytes(), strings_bytes(&r.methods));
    let ghost b5 = buf@;
    append_set(buf, "header".as_bytes(), headers_bytes(&r.headers));
    proof {
        assert(buf@ =~= b0 + route_sets_bytes(*r));
    }
}

fn priority_text_bytes(p: i32) -> (r: Vec<u8>)
    ensures
        r@ == priority_bytes(p),
{
    let mut priority: Vec<u8> = Vec::new();
    if p < 0 {
        append(&mut priority, "-".as_bytes());
        let magnitude = (-(p as i64)) as usize;
        let digits = decimal(magnitude);
        append(&mut priority, digits.as_str().as_bytes());
    } else {
        let digits = decimal(p as usize);
        append(&mut priority, digits.as_str().as_bytes());
    }
    assert(priority@ =~= priority_bytes(p));
    priority
}

fn append_route_tail(buf: &mut Vec<u8>, r: &RouteConfig)
    ensures
        final(buf)@ == old(buf)@ + route_tail_bytes(*r),
{
    let ghost b0 = buf@;
    if r.default {
        append_field(buf, "default".as_bytes(), "true".as_bytes());
    } else {
        append_field(buf, "default".as_bytes(), "false".as_bytes());
    }
    let priority = priority_text_bytes(r.priority);
    append_field(buf, "priority".as_bytes(), priority.as_slice());
    append_fields(buf, "middleware".as_bytes(), &strings_bytes(&r.middlewares));
    match &r.upstream_group {
        Some(u) => append_field(buf, "upstream".as_bytes(), u.as_str().as_bytes()),
        None => append_field(buf, "upstream".as_bytes(), "<none>".as_bytes()),
    }
    proof {
        assert(buf@ =~= b0 + route_tail_bytes(*r));
    }
}

fn append_route(buf: &mut Vec<u8>, r: &RouteConfig)
    ensures
        final(buf)@ == old(buf)@ + route_bytes(*r),
{
    let ghost b0 = buf@;
    append_field(buf, "route".as_bytes(), r.id.as_str().as_bytes());
    append_route_sets(buf, r);
    append_route_tail(buf, r);
    proof {
        assert(buf@ =~= b0 + route_bytes(*r));
    }
}

fn fnv_of(buf: &Vec<u8>) -> (h: u64)
    ensures
        h == fnv_bytes(FNV_OFFSET, buf@),
{
    let mut h: u64 = FNV_OFFSET;
    let mut j: usize = 0;
    while j < buf.len()
        invariant
            j <= buf@.len(),
            h == fnv_bytes(FNV_OFFSET, buf@.take(j as int)),
        decreases buf@.len() - j,
    {
        proof {
            assert(buf@.take(j + 1).drop_last() =~= buf@.take(j as int));
        }
        h = (h ^ (buf[j] as u64)).wrapping_mul(FNV_PRIME);
        j += 1;
    }
    assert(buf@.take(buf@.len() as int) =~= buf@);
    h
}

/// The positions of all routes, by ID then declaration.
fn routes_in_order(routes: &Vec<RouteConfig>) -> (r: Vec<usize>)
    ensures
        r@ == route_order(routes@),
        forall|a: int| 0 <= a < r@.len() ==> #[trigger] r@[a] < routes@.len(),
{
    let ghost all = Seq::new(routes@.len(), |i: int| i as usize);
    let mut order: Vec<usize> = Vec::new();
    let mut i: usize = 0;
    while i < routes.len()
        invariant
            i <= routes@.len(),
            all == Seq::new(routes@.len(), |i: int| i as usize),
            sorted_keys(routes@, order@),
            order@.to_multiset() == all.take(i as int).to_multiset(),
            forall|a: int| 0 <= a < order@.len() ==> #[trigger] order@[a] < i,
        decreases routes@.len() - i,
    {
        let next = sorted_insert(&order, routes, i);
        proof {
            assert(all.take(i + 1) =~= all.take(i as int).push(i));
        }
        order = next;
        i += 1;
    }
    proof {
        assert(all.take(routes@.len() as int) =~= all);
        lemma_key_order_total(routes@);
        all.lemma_sort_by_ensures(index_order(routes@));
        assert(sorted_by(order@, index_order(routes@)));
        vstd::seq_lib::lemma_sorted_unique(order@, route_order(routes@), index_order(routes@));
    }
    order
}

/// Stable route-set fingerprint: FNV-1a over every route, in ID order, with
/// every set field sorted first.
pub fn route_fingerprint(routes: &Vec<RouteConfig>) -> (r: u64)
    ensures
        r == fingerprint_spec(routes@),
{
    let order = routes_in_order(routes);
    let buf = routes_buffer(routes, &order);
    fnv_of(&buf)
}

#[verifier::rlimit(40)]
fn routes_buffer(routes: &Vec<RouteConfig>, order: &Vec<usize>) -> (buf: Vec<u8>)
    requires
        forall|a: int| 0 <= a < order@.len() ==> #[trigger] order@[a] < routes@.len(),
    ensures
        buf@ == routes_bytes(routes@, order@),
{
    let mut buf: Vec<u8> = Vec::new();
    let mut k: usize = 0;
    while k < order.len()
        invariant
            k <= order@.len(),
            forall|a: int| 0 <= a < order@.len() ==> #[trigger] order@[a] < routes@.len(),
            buf@ == routes_bytes(routes@, order@.take(k as int)),
        decreases order@.len() - k,
    {
        let ghost before = buf@;
        append_route(&mut buf, &routes[order[k]]);
        proof {
            assert(order@.take(k + 1).drop_last() =~= order@.take(k as int));
            assert(order@.take(k + 1).last() == order@[k as int]);
        }
        k += 1;
    }
    assert(order@.take(order@.len() as int) =~= order@);
    buf
}

/// Scores compared field by field, `false` before `true`.
pub open spec fn score_lt(a: RouteScore, b: RouteScore) -> bool {
    if a.specific != b.specific {
        !a.specific
    } else if a.priority != b.priority {
        a.priority < b.priority
    } else if a.host_kind != b.host_kind {
        a.host_kind < b.host_kind
    } else if a.host_len != b.host_len {
        a.host_len < b.host_len
    } else if a.path_kind != b.path_kind {
        a.path_kind < b.path_kind
    } else if a.path_len != b.path_len {
        a.path_len < b.path_len
    } else if a.method_specific != b.method_specific {
        !a.method_specific
    } else if a.method_rank != b.method_rank {
        a.method_rank < b.method_rank
    } else if a.header_count != b.header_count {
        a.header_count < b.header_count
    } else {
        a.exact_headers < b.exact_headers
    }
}

fn score_less(a: &RouteScore, b: &RouteScore) -> (r: bool)
    ensures
        r == score_lt(*a, *b),
{
    if a.specific != b.specific {
        !a.specific
    } else if a.priority != b.priority {
        a.priority < b.priority
    } else if a.host_kind != b.host_kind {
        a.host_kind < b.host_kind
    } else if a.host_len != b.host_len {
        a.host_len < b.host_len
    } else if a.path_kind != b.path_kind {
        a.path_kind < b.path_kind
    } else if a.path_len != b.path_len {
        a.path_len < b.path_len
    } else if a.method_specific != b.method_specific {
        !a.method_specific
    } else if a.method_rank != b.method_rank {
        a.method_rank < b.method_rank
    } else if a.header_count != b.header_count {
        a.header_count < b.header_count
    } else {
        a.exact_headers < b.exact_headers
    }
}

/// Candidate `a` ranks below candidate `b`: a lower score, or the same score
/// and a greater ID.
pub open spec fn cand_lt(sa: RouteScore, ida: Seq<u8>, sb: RouteScore, idb: Seq<u8>) -> bool {
    score_lt(sa, sb) || (sa == sb && lex_lt(idb, ida))
}

pub proof fn lemma_cand_order(
    sa: RouteScore,
    ida: Seq<u8>,
    sb: RouteScore,
    idb: Seq<u8>,
    sc: RouteScore,
    idc: Seq<u8>,
)
    ensures
        !(cand_lt(sa, ida, sb, idb) && cand_lt(sb, idb, sa, ida)),
        cand_lt(sa, ida, sb, idb) || cand_lt(sb, idb, sa, ida) || (sa == sb && ida == idb),
        cand_lt(sa, ida, sb, idb) && cand_lt(sb, idb, sc, idc) ==> cand_lt(sa, ida, sc, idc),
{
    lemma_lex_asymmetric(ida, idb);
    lemma_lex_total(ida, idb);
    if cand_lt(sa, ida, sb, idb) && cand_lt(sb, idb, sc, idc) {
        if sa == sb && sb == sc {
            lemma_lex_transitive(idc, idb, ida);
        }
    }
}

/// The score of the route at position `x` for a request with host `host`.
pub open spec fn select_score(config: Config, req: RequestFacts, host: Seq<u8>, x: usize) -> Option<
    RouteScore,
> {
    route_score_spec(config.routes@[x as int], req, host, utf8(req.path@))
}

/// Position `p` of the listener's list holds the selected route: it
/// matches, no matching route ranks above it, and no later one ties with it.
pub open spec fn chosen_at(
    config: Config,
    req: RequestFacts,
    host: Seq<u8>,
    list: Seq<usize>,
    p: int,
) -> bool {
    &&& 0 <= p < list.len()
    &&& select_score(config, req, host, list[p]) is Some
    &&& forall|q: int|
        0 <= q < list.len() && (#[trigger] select_score(config, req, host, list[q])) is Some ==> {
            let sp = select_score(config, req, host, list[p])->0;
            let sq = select_score(config, req, host, list[q])->0;
            &&& !cand_lt(sp, id_bytes(config.routes@, list[p]), sq, id_bytes(config.routes@, list[q]))
            &&& (sq == sp && id_bytes(config.routes@, list[q]) == id_bytes(config.routes@, list[p]))
                ==> q <= p
        }
}

/// SNI score of the route at position `x`: default routes score lowest,
/// others by their host patterns when a name was given.
pub open spec fn sni_score(config: Config, name: Option<Seq<u8>>, x: usize) -> Option<(int, int)> {
    if config.routes@[x as int].default {
        Some((0, 0))
    } else {
        match name {
            Some(h) => host_score_spec(config.routes@[x as int].hosts@, h),
            None => None,
        }
    }
}

pub open spec fn pair_lt(a: (int, int), b: (int, int)) -> bool {
    a.0 < b.0 || (a.0 == b.0 && a.1 < b.1)
}

pub open spec fn sni_chosen_at(config: Config, name: Option<Seq<u8>>, list: Seq<usize>, p: int) -> bool {
    &&& 0 <= p < list.len()
    &&& sni_score(config, name, list[p]) is Some
    &&& forall|q: int|
        0 <= q < list.len() && (#[trigger] sni_score(config, name, list[q])) is Some ==> {
            let sp = sni_score(config, name, list[p])->0;
            let sq = sni_score(config, name, list[q])->0;
            let ip = id_bytes(config.routes@, list[p]);
            let iq = id_bytes(config.routes@, list[q]);
            &&& !(pair_lt(sp, sq) || (sp == sq && lex_lt(iq, ip)))
            &&& (sq == sp && iq == ip) ==> q <= p
        }
}

impl RouteIndex {
    /// Selects one route of a listener for a request: the highest score,
    /// ties going to the smaller route ID; `None` without a canonical host
    /// or a matching route.
    pub fn select<'a>(&self, config: &'a Config, request: &RequestFacts, listener: &str) -> (r:
        Option<&'a RouteConfig>)
        requires
            self.fits(config.routes@.len() as int),
        ensures
            match request_host_spec(*request) {
                None => r is None,
                Some(h) => {
                    let list = self.routes_for(listener@);
                    &&& (r is None <==> forall|q: int|
                        0 <= q < list.len() ==> (#[trigger] select_score(
                            *config,
                            *request,
                            h,
                            list[q],
                        )) is None)
                    &&& (r matches Some(rt) ==> exists|p: int|
                        #[trigger] chosen_at(*config, *request, h, list, p) && *rt
                            == config.routes@[list[p] as int])
                },
            },
    {
        let host = match request_host(request) {
            Ok(h) => h,
            Err(()) => {
                return None;
            },
        };
        let ghost hb = utf8(host@);
        let list = match self.by_listener.get(listener) {
            Some(l) => l,
            None => {
                return None;
            },
        };
        assert(list@ == self.routes_for(listener@));
        let mut best: Option<(usize, RouteScore)> = None;
        let mut q: usize = 0;
        while q < list.len()
            invariant
                q <= list@.len(),
                list@ == self.routes_for(listener@),
                self.fits(config.routes@.len() as int),
                hb == utf8(host@),
                match best {
                    None => forall|k: int|
                        0 <= k < q ==> (#[trigger] select_score(*config, *request, hb, list@[k]))
                            is None,
                    Some((bp, bs)) => {
                        &&& bp < q
                        &&& select_score(*config, *request, hb, list@[bp as int]) == Some(bs)
                        &&& forall|k: int|
                            0 <= k < q && (#[trigger] select_score(
                                *config,
                                *request,
                                hb,
                                list@[k],
                            )) is Some ==> {
                                let sk = select_score(*config, *request, hb, list@[k])->0;
                                &&& !cand_lt(
                                    bs,
                                    id_bytes(config.routes@, list@[bp as int]),
                                    sk,
                                    id_bytes(config.routes@, list@[k]),
                                )
                                &&& (sk == bs && id_bytes(config.routes@, list@[k]) == id_bytes(
                                    config.routes@,
                                    list@[bp as int],
                                )) ==> k <= bp
                            }
                    },
                },
            decreases list@.len() - q,
        {
            let x = list[q];
            assert(list@[q as int] == self.routes_for(listener@)[q as int]);
            let route = &config.routes[x];
            match route_match_score(route, request, host.as_str(), request.path.as_str()) {
                None => {},
                Some(s) => {
                    let take = match best {
                        None => true,
                        Some((bp, bs)) => {
                            let xb = list[bp];
                            assert(list@[bp as int] == self.routes_for(listener@)[bp as int]);
                            let idx = config.routes[x].id.as_str().as_bytes();
                            let idb = config.routes[xb].id.as_str().as_bytes();
                            !(score_less(&s, &bs) || (s == bs && bytes_lt(idb, idx)))
                        },
                    };
                    if take {
                        proof {
                            if let Some((bp, bs)) = best {
                                let ib = id_bytes(config.routes@, list@[bp as int]);
                                let ix = id_bytes(config.routes@, x);
                                assert forall|k: int|
                                    0 <= k < q + 1 && (#[trigger] select_score(
                                        *config,
                                        *request,
                                        hb,
                                        list@[k],
                                    )) is Some implies {
                                    let sk = select_score(*config, *request, hb, list@[k])->0;
                                    &&& !cand_lt(s, ix, sk, id_bytes(config.routes@, list@[k]))
                                    &&& (sk == s && id_bytes(config.routes@, list@[k]) == ix) ==> k
                                        <= q
                                } by {
                                    if k < q {
                                        let sk = select_score(*config, *request, hb, list@[k])->0;
                                        let ik = id_bytes(config.routes@, list@[k]);
                                        lemma_cand_order(s, ix, bs, ib, sk, ik);
                                        lemma_cand_order(bs, ib, sk, ik, s, ix);
                                        lemma_cand_order(s, ix, sk, ik, bs, ib);
                                    } else {
                                        lemma_cand_order(s, ix, s, ix, s, ix);
                                    }
                                }
                            } else {
                                lemma_cand_order(s, id_bytes(config.routes@, x), s, id_bytes(config.routes@, x), s, id_bytes(config.routes@, x));
                            }
                        }
                        best = Some((q, s));
                    } else {
                        proof {
                            if let Some((bp, bs)) = best {
                                let ib = id_bytes(config.routes@, list@[bp as int]);
                                let ix = id_bytes(config.routes@, x);
                                lemma_cand_order(s, ix, bs, ib, s, ix);
                            }
                        }
                    }
                },
            }
            q += 1;
        }
        match best {
            None => None,
            Some((bp, _)) => {
                assert(chosen_at(*config, *request, hb, list@, bp as int));
                Some(&config.routes[list[bp]])
            },
        }
    }
}

/// A server name, when given, has a canonical form.
pub open spec fn sni_name_ok(server_name: Option<&str>) -> bool {
    match server_name {
        Some(n) => canonical_host_spec(n@) is Some,
        None => true,
    }
}

/// The canonical server name, if one was given.
pub open spec fn sni_name(server_name: Option<&str>) -> Option<Seq<u8>> {
    match server_name {
        Some(n) => canonical_host_spec(n@),
        None => None,
    }
}

/// `r` is the route chosen from the listener's list for the name.
pub open spec fn sni_outcome(
    config: Config,
    nm: Option<Seq<u8>>,
    list: Seq<usize>,
    r: Option<&RouteConfig>,
) -> bool {
    &&& (r is None <==> forall|q: int|
        0 <= q < list.len() ==> (#[trigger] sni_score(config, nm, list[q])) is None)
    &&& (r matches Some(rt) ==> exists|p: int|
        #[trigger] sni_chosen_at(config, nm, list, p) && *rt == config.routes@[list[p] as int])
}

impl RouteIndex {
    /// Selects the route of a listener for a TLS server name: exact hosts
    /// before wildcards, then default routes, ties going to the smaller
    /// route ID; `None` when the name is not canonical or nothing matches.
    #[verifier::spinoff_prover]
    pub fn select_sni<'a>(&self, config: &'a Config, listener: &str, server_name: Option<&str>) -> (r:
        Option<&'a RouteConfig>)
        requires
            self.fits(config.routes@.len() as int),
        ensures
            !sni_name_ok(server_name) ==> r is None,
            sni_name_ok(server_name) ==> sni_outcome(
                *config,
                sni_name(server_name),
                self.routes_for(listener@),
                r,
            ),
    {
        let canonical: Option<String> = match server_name {
            None => None,
            Some(n) => match canonical_host(n) {
                Ok(h) => Some(h),
                Err(()) => {
                    return None;
                },
            },
        };
        let ghost nm: Option<Seq<u8>> = match &canonical {
            Some(h) => Some(utf8(h@)),
            None => None,
        };
        assert(nm == sni_name(server_name));
        let list = match self.by_listener.get(listener) {
            Some(l) => l,
            None => {
                return None;
            },
        };
        assert(list@ == self.routes_for(listener@));
        let mut best: Option<(usize, (u8, usize))> = None;
        let mut q: usize = 0;
        while q < list.len()
            invariant
                q <= list@.len(),
                list@ == self.routes_for(listener@),
                self.fits(config.routes@.len() as int),
                nm == match &canonical {
                    Some(h) => Some(utf8(h@)),
                    None => None::<Seq<u8>>,
                },
                match best {
                    None => forall|k: int|
                        0 <= k < q ==> (#[trigger] sni_score(*config, nm, list@[k])) is None,
                    Some((bp, bs)) => {
                        let bsi = (bs.0 as int, bs.1 as int);
                        let ib = id_bytes(config.routes@, list@[bp as int]);
                        &&& bp < q
                        &&& sni_score(*config, nm, list@[bp as int]) == Some(bsi)
                        &&& forall|k: int|
                            0 <= k < q && (#[trigger] sni_score(*config, nm, list@[k])) is Some ==> {
                                let sk = sni_score(*config, nm, list@[k])->0;
                                let ik = id_bytes(config.routes@, list@[k]);
                                &&& !(pair_lt(bsi, sk) || (bsi == sk && lex_lt(ik, ib)))
                                &&& (sk == bsi && ik == ib) ==> k <= bp
                            }
                    },
                },
            decreases list@.len() - q,
        {
            let x = list[q];
            assert(list@[q as int] == self.routes_for(listener@)[q as int]);
            let route = &config.routes[x];
            let score: Option<(u8, usize)> = if route.default {
                Some((0, 0))
            } else {
                match &canonical {
                    Some(h) => host_match_score(&route.hosts, h.as_str()),
                    None => None,
                }
            };
            proof {
                match score {
                    Some(sc) => assert(sni_score(*config, nm, x) == Some((sc.0 as int, sc.1 as int))),
                    None => assert(sni_score(*config, nm, x) is None),
                }
            }
            match score {
                None => {},
                Some(s) => {
                    let ghost si = (s.0 as int, s.1 as int);
                    let ghost ix = id_bytes(config.routes@, x);
                    let take = match best {
                        None => true,
                        Some((bp, bs)) => {
                            let xb = list[bp];
                            assert(list@[bp as int] == self.routes_for(listener@)[bp as int]);
                            let idx = config.routes[x].id.as_str().as_bytes();
                            let idb = config.routes[xb].id.as_str().as_bytes();
                            let lower = s.0 < bs.0 || (s.0 == bs.0 && s.1 < bs.1);
                            !(lower || (s.0 == bs.0 && s.1 == bs.1 && bytes_lt(idb, idx)))
                        },
                    };
                    proof {
                        lemma_lex_asymmetric(ix, ix);
                        lemma_lex_irreflexive(ix);
                        if let Some((bp, bs)) = best {
                            let ib = id_bytes(config.routes@, list@[bp as int]);
                            let bsi = (bs.0 as int, bs.1 as int);
                            lemma_lex_asymmetric(ix, ib);
                            lemma_lex_total(ix, ib);
                            assert forall|k: int|
                                0 <= k < q && (#[trigger] sni_score(*config, nm, list@[k])) is Some
                                    implies ({
                                let sk = sni_score(*config, nm, list@[k])->0;
                                let ik = id_bytes(config.routes@, list@[k]);
                                take ==> !(pair_lt(si, sk) || (si == sk && lex_lt(ik, ix)))
                            }) by {
                                let ik = id_bytes(config.routes@, list@[k]);
                                lemma_lex_asymmetric(ik, ib);
                                lemma_lex_total(ik, ib);
                                lemma_lex_total(ik, ix);
                                if lex_lt(ik, ix) && lex_lt(ix, ib) {
                                    lemma_lex_transitive(ik, ix, ib);
                                }
                                if lex_lt(ik, ib) && lex_lt(ib, ix) {
                                    lemma_lex_transitive(ik, ib, ix);
                                }
                                if lex_lt(ib, ix) && lex_lt(ix, ik) {
                                    lemma_lex_transitive(ib, ix, ik);
                                }
                            }
                        }
                    }
                    if take {
                        best = Some((q, s));
                    }
                },
            }
            q += 1;
        }
        match best {
            None => None,
            Some((bp, _)) => {
                assert(sni_chosen_at(*config, nm, list@, bp as int));
                Some(&config.routes[list[bp]])
            },
        }
    }
}


/// Two duplicate-free sequences with the same items have the same multiset.
proof fn lemma_same_items_multiset<A>(a: Seq<A>, b: Seq<A>)
    requires
        a.no_duplicates(),
        b.no_duplicates(),
        forall|x: A| a.contains(x) <==> b.contains(x),
    ensures
        a.to_multiset() =~= b.to_multiset(),
{
    broadcast use vstd::multiset::group_multiset_axioms;

    a.lemma_multiset_has_no_duplicates();
    b.lemma_multiset_has_no_duplicates();
    assert forall|x: A| a.to_multiset().count(x) == b.to_multiset().count(x) by {
        if a.contains(x) {
            assert(a.to_multiset().count(x) > 0);
            assert(b.to_multiset().count(x) > 0);
        }
    }
}

/// A set of texts is hashed the same whatever order it is listed in.
proof fn lemma_set_bytes_order_free(name: Seq<u8>, a: Seq<Seq<u8>>, b: Seq<Seq<u8>>)
    requires
        a.to_multiset() == b.to_multiset(),
    ensures
        set_bytes(name, a) == set_bytes(name, b),
{
    lemma_text_order_total();
    a.lemma_sort_by_ensures(text_order());
    b.lemma_sort_by_ensures(text_order());
    vstd::seq_lib::lemma_sorted_unique(a.sort_by(text_order()), b.sort_by(text_order()), text_order());
}

/// `a` declares what `b` declares, its listeners, hosts, paths, prefixes,
/// methods and header predicates possibly listed in another order.
pub open spec fn same_route_but_order(a: RouteConfig, b: RouteConfig) -> bool {
    &&& a.id@ == b.id@
    &&& texts(a.listeners@).to_multiset() == texts(b.listeners@).to_multiset()
    &&& texts(a.hosts@).to_multiset() == texts(b.hosts@).to_multiset()
    &&& texts(a.paths@).to_multiset() == texts(b.paths@).to_multiset()
    &&& texts(a.path_prefixes@).to_multiset() == texts(b.path_prefixes@).to_multiset()
    &&& texts(a.methods@).to_multiset() == texts(b.methods@).to_multiset()
    &&& header_texts(a.headers@).to_multiset() == header_texts(b.headers@).to_multiset()
    &&& a.default == b.default
    &&& a.priority == b.priority
    &&& texts(a.middlewares@) == texts(b.middlewares@)
    &&& (a.upstream_group is Some <==> b.upstream_group is Some)
    &&& (a.upstream_group is Some ==> a.upstream_group->0@ == b.upstream_group->0@)
}

proof fn lemma_route_bytes_order_free(a: RouteConfig, b: RouteConfig)
    requires
        same_route_but_order(a, b),
    ensures
        route_bytes(a) == route_bytes(b),
{
    lemma_set_bytes_order_free(utf8("listener"@), texts(a.listeners@), texts(b.listeners@));
    lemma_set_bytes_order_free(utf8("host"@), texts(a.hosts@), texts(b.hosts@));
    lemma_set_bytes_order_free(utf8("path"@), texts(a.paths@), texts(b.paths@));
    lemma_set_bytes_order_free(utf8("prefix"@), texts(a.path_prefixes@), texts(b.path_prefixes@));
    lemma_set_bytes_order_free(utf8("method"@), texts(a.methods@), texts(b.methods@));
    lemma_set_bytes_order_free(utf8("header"@), header_texts(a.headers@), header_texts(b.headers@));
}

/// The routes at positions `order` of `right` are hashed as the routes at
/// the corresponding positions of `left`.
proof fn lemma_routes_bytes_mapped(
    left: Seq<RouteConfig>,
    right: Seq<RouteConfig>,
    p: Seq<int>,
    order: Seq<usize>,
    mapped: Seq<usize>,
)
    requires
        mapped.len() == order.len(),
        forall|k: int|
            0 <= k < order.len() ==> (#[trigger] order[k]) < right.len() && mapped[k] as int
                == p[order[k] as int] && 0 <= p[order[k] as int] < left.len(),
        forall|k: int|
            0 <= k < right.len() ==> same_route_but_order(#[trigger] right[k], left[p[k]]),
    ensures
        routes_bytes(right, order) == routes_bytes(left, mapped),
    decreases order.len(),
{
    if order.len() > 0 {
        let k = order.len() - 1;
        lemma_routes_bytes_mapped(left, right, p, order.drop_last(), mapped.drop_last());
        assert(same_route_but_order(right[order[k] as int], left[p[order[k] as int]]));
        lemma_route_bytes_order_free(right[order[k] as int], left[mapped[k] as int]);
    }
}

/// The route fingerprint does not depend on the order in which routes are
/// declared, nor on the order of each route's listeners, hosts, paths,
/// prefixes, methods and header predicates, for routes with distinct IDs.
pub proof fn lemma_fingerprint_ignores_order(
    left: Seq<RouteConfig>,
    right: Seq<RouteConfig>,
    p: Seq<int>,
    q: Seq<int>,
)
    requires
        right.len() == left.len(),
        left.len() <= usize::MAX,
        crate::conflict::inverse_permutations(p, q, left.len() as int),
        forall|k: int|
            0 <= k < right.len() ==> same_route_but_order(#[trigger] right[k], left[p[k]]),
        forall|i: int, j: int|
            0 <= i < j < left.len() ==> (#[trigger] left[i]).id@ != (#[trigger] left[j]).id@,
    ensures
        fingerprint_spec(right) == fingerprint_spec(left),
{
    let n = left.len();
    let idx = Seq::new(n, |i: int| i as usize);
    let ol = route_order(left);
    let or = route_order(right);
    lemma_key_order_total(left);
    lemma_key_order_total(right);
    idx.lemma_sort_by_ensures(index_order(left));
    idx.lemma_sort_by_ensures(index_order(right));
    assert(idx.no_duplicates());
    idx.lemma_multiset_has_no_duplicates();
    assert forall|x: usize| or.to_multiset().contains(x) implies or.to_multiset().count(x) == 1 by {
        assert(idx.to_multiset().contains(x));
    }
    or.lemma_multiset_has_no_duplicates_conv();
    assert forall|k: int| 0 <= k < or.len() implies (#[trigger] or[k]) < n by {
        assert(or.contains(or[k]));
        assert(or.to_multiset().count(or[k]) > 0);
        assert(idx.to_multiset().count(or[k]) > 0);
        assert(idx.contains(or[k]));
    }
    let mapped = or.map_values(|k: usize| p[k as int] as usize);
    assert forall|a: int, b: int| 0 <= a < mapped.len() && 0 <= b < mapped.len() && a != b implies
        mapped[a] != mapped[b] by {
        assert(or[a] != or[b]);
        assert(q[p[or[a] as int]] == or[a] as int);
        assert(q[p[or[b] as int]] == or[b] as int);
    }
    assert forall|x: usize| mapped.contains(x) <==> idx.contains(x) by {
        if idx.contains(x) {
            let y = q[x as int];
            assert(0 <= y < n);
            assert(idx[y] == y as usize);
            assert(idx.to_multiset().count(y as usize) > 0);
            assert(or.to_multiset().count(y as usize) > 0);
            assert(or.contains(y as usize));
            let k = choose|k: int| 0 <= k < or.len() && or[k] == y as usize;
            assert(mapped[k] == x);
        }
        if mapped.contains(x) {
            let k = choose|k: int| 0 <= k < mapped.len() && mapped[k] == x;
            assert(idx[x as int] == x);
        }
    }
    lemma_same_items_multiset(mapped, idx);
    assert forall|a: int, b: int| 0 <= a < b < mapped.len() implies #[trigger] index_order(left)(
        mapped[a],
        mapped[b],
    ) by {
        assert(index_order(right)(or[a], or[b]));
        let (x, y) = (or[a], or[b]);
        assert(right[x as int].id@ == left[mapped[a] as int].id@);
        assert(right[y as int].id@ == left[mapped[b] as int].id@);
        if id_bytes(left, mapped[b]) == id_bytes(left, mapped[a]) {
            vstd::utf8::encode_utf8_decode_utf8(left[mapped[b] as int].id@);
            vstd::utf8::encode_utf8_decode_utf8(left[mapped[a] as int].id@);
            assert(left[mapped[b] as int].id@ == left[mapped[a] as int].id@);
        }
    }
    vstd::seq_lib::lemma_sorted_unique(mapped, ol, index_order(left));
    lemma_routes_bytes_mapped(left, right, p, or, mapped);
}

/// Route `r` names listener `l` in its listener list.
pub open spec fn names_listener(r: RouteConfig, l: Seq<char>) -> bool {
    exists|m: int| 0 <= m < r.listeners@.len() && (#[trigger] r.listeners@[m])@ == l
}

proof fn lemma_listener_hits_member(ls: Seq<String>, l: Seq<char>, i: usize, x: usize)
    ensures
        listener_hits(ls, l, i).count(x) > 0 <==> (x == i && exists|m: int|
            0 <= m < ls.len() && (#[trigger] ls[m])@ == l),
    decreases ls.len(),
{
    broadcast use vstd::multiset::group_multiset_axioms;

    if ls.len() > 0 {
        let d = ls.drop_last();
        lemma_listener_hits_member(d, l, i, x);
        if exists|m: int| 0 <= m < d.len() && (#[trigger] d[m])@ == l {
            let m = choose|m: int| 0 <= m < d.len() && (#[trigger] d[m])@ == l;
            assert(ls[m] == d[m]);
        }
        if exists|m: int| 0 <= m < ls.len() && (#[trigger] ls[m])@ == l {
            let m = choose|m: int| 0 <= m < ls.len() && (#[trigger] ls[m])@ == l;
            if m < ls.len() - 1 {
                assert(d[m] == ls[m]);
            }
        }
    }
}

proof fn lemma_route_hits_member(routes: Seq<RouteConfig>, l: Seq<char>, n: int, x: usize)
    requires
        n <= routes.len(),
        n <= usize::MAX,
    ensures
        route_hits(routes, l, n).count(x) > 0 <==> (x < n && names_listener(routes[x as int], l)),
    decreases n,
{
    broadcast use vstd::multiset::group_multiset_axioms;

    if n > 0 {
        lemma_route_hits_member(routes, l, n - 1, x);
        lemma_listener_hits_member(routes[n - 1].listeners@, l, (n - 1) as usize, x);
    }
}

/// A route listed for `l` in one list has its counterpart, under the
/// reordering `perm`, listed for `l` in the other.
proof fn lemma_moved_member(
    from: Seq<RouteConfig>,
    to: Seq<RouteConfig>,
    lf: Seq<usize>,
    lt: Seq<usize>,
    perm: Seq<int>,
    l: Seq<char>,
    y: int,
)
    requires
        from.len() == to.len(),
        to.len() <= usize::MAX,
        perm.len() == to.len(),
        forall|k: int| 0 <= k < to.len() ==> 0 <= #[trigger] perm[k] < to.len() && to[k] == from[perm[k]],
        lf.to_multiset() == route_hits(from, l, from.len() as int),
        lt.to_multiset() == route_hits(to, l, to.len() as int),
        0 <= y < lt.len(),
    ensures
        lt[y] < to.len(),
        exists|x: int| 0 <= x < lf.len() && #[trigger] lf[x] as int == perm[lt[y] as int],
{
    let k = lt[y];
    lt.to_multiset_ensures();
    lf.to_multiset_ensures();
    assert(lt.contains(k));
    lemma_route_hits_member(to, l, to.len() as int, k);
    let j = perm[k as int];
    lemma_route_hits_member(from, l, from.len() as int, j as usize);
    assert(lf.contains(j as usize));
    let x = choose|x: int| 0 <= x < lf.len() && lf[x] == j as usize;
    assert(lf[x] as int == perm[lt[y] as int]);
}

/// Every route listed in `lt` has its counterpart under `perm` listed in `lf`.
pub open spec fn counterparts_listed(lf: Seq<usize>, lt: Seq<usize>, perm: Seq<int>, n: int) -> bool {
    forall|y: int|
        0 <= y < lt.len() ==> lt[y] < n && exists|x: int|
            0 <= x < lf.len() && #[trigger] lf[x] as int == perm[#[trigger] lt[y] as int]
}

proof fn lemma_counterparts(
    from: Seq<RouteConfig>,
    to: Seq<RouteConfig>,
    lf: Seq<usize>,
    lt: Seq<usize>,
    perm: Seq<int>,
    l: Seq<char>,
)
    requires
        from.len() == to.len(),
        to.len() <= usize::MAX,
        perm.len() == to.len(),
        forall|k: int| 0 <= k < to.len() ==> 0 <= #[trigger] perm[k] < to.len() && to[k] == from[perm[k]],
        lf.to_multiset() == route_hits(from, l, from.len() as int),
        lt.to_multiset() == route_hits(to, l, to.len() as int),
    ensures
        counterparts_listed(lf, lt, perm, to.len() as int),
{
    assert forall|y: int| 0 <= y < lt.len() implies lt[y] < to.len() && exists|x: int|
        0 <= x < lf.len() && #[trigger] lf[x] as int == perm[#[trigger] lt[y] as int] by {
        lemma_moved_member(from, to, lf, lt, perm, l, y);
    }
}

proof fn lemma_none_transported(
    from: Config,
    to: Config,
    lf: Seq<usize>,
    lt: Seq<usize>,
    perm: Seq<int>,
    req: RequestFacts,
    h: Seq<u8>,
)
    requires
        from.routes@.len() == to.routes@.len(),
        forall|k: int|
            0 <= k < to.routes@.len() ==> 0 <= #[trigger] perm[k] < to.routes@.len() && to.routes@[k]
                == from.routes@[perm[k]],
        counterparts_listed(lf, lt, perm, to.routes@.len() as int),
        forall|x: int| 0 <= x < lf.len() ==> (#[trigger] select_score(from, req, h, lf[x])) is None,
    ensures
        forall|y: int| 0 <= y < lt.len() ==> (#[trigger] select_score(to, req, h, lt[y])) is None,
{
    assert forall|y: int| 0 <= y < lt.len() implies (#[trigger] select_score(to, req, h, lt[y])) is None by {
        let v = lt[y];
        assert(v < to.routes@.len());
        let x = choose|x: int| 0 <= x < lf.len() && #[trigger] lf[x] as int == perm[v as int];
        assert(select_score(from, req, h, lf[x]) is None);
        assert(from.routes@[lf[x] as int] == to.routes@[v as int]);
    }
}

proof fn lemma_chosen_same(
    left: Config,
    right: Config,
    la: Seq<usize>,
    lb: Seq<usize>,
    p: Seq<int>,
    q: Seq<int>,
    req: RequestFacts,
    h: Seq<u8>,
    x: int,
    y: int,
)
    requires
        right.routes@.len() == left.routes@.len(),
        forall|k: int|
            0 <= k < right.routes@.len() ==> 0 <= #[trigger] p[k] < left.routes@.len()
                && right.routes@[k] == left.routes@[p[k]],
        forall|k: int|
            0 <= k < left.routes@.len() ==> 0 <= #[trigger] q[k] < right.routes@.len()
                && left.routes@[k] == right.routes@[q[k]],
        forall|i: int, j: int|
            0 <= i < j < left.routes@.len() ==> (#[trigger] left.routes@[i]).id@ != (
            #[trigger] left.routes@[j]).id@,
        counterparts_listed(la, lb, p, left.routes@.len() as int),
        counterparts_listed(lb, la, q, left.routes@.len() as int),
        chosen_at(left, req, h, la, x),
        chosen_at(right, req, h, lb, y),
    ensures
        left.routes@[la[x] as int] == right.routes@[lb[y] as int],
{
    let u = la[x];
    let v = lb[y];
    assert(u < left.routes@.len() && v < right.routes@.len());
    let x2 = choose|x2: int| 0 <= x2 < la.len() && #[trigger] la[x2] as int == p[v as int];
    let y2 = choose|y2: int| 0 <= y2 < lb.len() && #[trigger] lb[y2] as int == q[u as int];
    let w = p[v as int];
    assert(left.routes@[w] == right.routes@[v as int]);
    assert(right.routes@[q[u as int]] == left.routes@[u as int]);
    assert(select_score(left, req, h, la[x2]) == select_score(right, req, h, v));
    assert(select_score(right, req, h, lb[y2]) == select_score(left, req, h, u));
    let su = select_score(left, req, h, u)->0;
    let sv = select_score(right, req, h, v)->0;
    let iu = id_bytes(left.routes@, u);
    let iv = id_bytes(right.routes@, v);
    assert(id_bytes(left.routes@, la[x2]) == iv);
    assert(id_bytes(right.routes@, lb[y2]) == iu);
    assert(!cand_lt(su, iu, sv, iv));
    assert(!cand_lt(sv, iv, su, iu));
    lemma_cand_order(su, iu, sv, iv, su, iu);
    vstd::utf8::encode_utf8_decode_utf8(left.routes@[u as int].id@);
    vstd::utf8::encode_utf8_decode_utf8(left.routes@[w].id@);
    assert(left.routes@[u as int].id@ == left.routes@[w].id@);
    if (u as int) < w {
        assert(left.routes@[u as int].id@ != left.routes@[w].id@);
    } else if w < (u as int) {
        assert(left.routes@[w].id@ != left.routes@[u as int].id@);
    }
}

proof fn lemma_inverse_routes(left: Seq<RouteConfig>, right: Seq<RouteConfig>, p: Seq<int>, q: Seq<int>)
    requires
        right.len() == left.len(),
        crate::conflict::inverse_permutations(p, q, left.len() as int),
        forall|k: int| 0 <= k < right.len() ==> #[trigger] right[k] == left[p[k]],
    ensures
        forall|k: int| 0 <= k < left.len() ==> 0 <= #[trigger] q[k] < left.len() && left[k] == right[q[k]],
        forall|k: int| 0 <= k < right.len() ==> 0 <= #[trigger] p[k] < left.len() && right[k] == left[p[k]],
{
    assert forall|k: int| 0 <= k < left.len() implies 0 <= #[trigger] q[k] < left.len() && left[k] == right[q[k]] by {
        assert(right[q[k]] == left[p[q[k]]]);
    }
}

/// Declaration order never changes the selected route. Take two
/// configurations whose routes are the same routes in another order, with
/// distinct IDs, and for each the per-listener list that compiling it
/// gives. For any request host and listener, every route of one list fails
/// to match exactly when every route of the other does, and the routes
/// selected from the two lists are the same route.
#[verifier::spinoff_prover]
pub proof fn lemma_select_ignores_route_order(
    left: Config,
    right: Config,
    a: RouteIndex,
    b: RouteIndex,
    p: Seq<int>,
    q: Seq<int>,
    req: RequestFacts,
    h: Seq<u8>,
    l: Seq<char>,
)
    requires
        right.routes@.len() == left.routes@.len(),
        left.routes@.len() <= usize::MAX,
        crate::conflict::inverse_permutations(p, q, left.routes@.len() as int),
        forall|k: int| 0 <= k < right.routes@.len() ==> #[trigger] right.routes@[k] == left.routes@[p[k]],
        forall|i: int, j: int|
            0 <= i < j < left.routes@.len() ==> (#[trigger] left.routes@[i]).id@ != (
            #[trigger] left.routes@[j]).id@,
        a.routes_for(l).to_multiset() == route_hits(left.routes@, l, left.routes@.len() as int),
        b.routes_for(l).to_multiset() == route_hits(right.routes@, l, right.routes@.len() as int),
    ensures
        (forall|x: int|
            0 <= x < a.routes_for(l).len() ==> (#[trigger] select_score(left, req, h, a.routes_for(l)[x])) is None)
            <==> (forall|y: int|
            0 <= y < b.routes_for(l).len() ==> (#[trigger] select_score(right, req, h, b.routes_for(l)[y])) is None),
        forall|x: int, y: int|
            #![trigger chosen_at(left, req, h, a.routes_for(l), x), chosen_at(right, req, h, b.routes_for(l), y)]
            chosen_at(left, req, h, a.routes_for(l), x) && chosen_at(right, req, h, b.routes_for(l), y)
                ==> left.routes@[a.routes_for(l)[x] as int] == right.routes@[b.routes_for(l)[y] as int],
{
    let la = a.routes_for(l);
    let lb = b.routes_for(l);
    lemma_inverse_routes(left.routes@, right.routes@, p, q);
    lemma_counterparts(left.routes@, right.routes@, la, lb, p, l);
    lemma_counterparts(right.routes@, left.routes@, lb, la, q, l);
    if forall|x: int| 0 <= x < la.len() ==> (#[trigger] select_score(left, req, h, la[x])) is None {
        lemma_none_transported(left, right, la, lb, p, req, h);
    }
    if forall|y: int| 0 <= y < lb.len() ==> (#[trigger] select_score(right, req, h, lb[y])) is None {
        lemma_none_transported(right, left, lb, la, q, req, h);
    }
    assert forall|x: int, y: int|
        #![trigger chosen_at(left, req, h, la, x), chosen_at(right, req, h, lb, y)]
        chosen_at(left, req, h, la, x) && chosen_at(right, req, h, lb, y) implies left.routes@[la[x] as int]
            == right.routes@[lb[y] as int] by {
        lemma_chosen_same(left, right, la, lb, p, q, req, h, x, y);
    }
}


/// How many times listener `l` is named in `ls`.
pub open spec fn mentions(ls: Seq<String>, l: Seq<char>) -> nat
    decreases ls.len(),
{
    if ls.len() == 0 {
        0
    } else {
        mentions(ls.drop_last(), l) + if ls.last()@ == l {
            1nat
        } else {
            0nat
        }
    }
}

proof fn lemma_listener_hits_count(ls: Seq<String>, l: Seq<char>, i: usize, x: usize)
    ensures
        listener_hits(ls, l, i).count(x) == if x == i {
            mentions(ls, l)
        } else {
            0
        },
    decreases ls.len(),
{
    broadcast use vstd::multiset::group_multiset_axioms;

    if ls.len() > 0 {
        lemma_listener_hits_count(ls.drop_last(), l, i, x);
    }
}

proof fn lemma_route_hits_count(routes: Seq<RouteConfig>, l: Seq<char>, n: int, x: usize)
    requires
        n <= routes.len(),
        n <= usize::MAX,
    ensures
        route_hits(routes, l, n).count(x) == if x < n {
            mentions(routes[x as int].listeners@, l)
        } else {
            0
        },
    decreases n,
{
    broadcast use vstd::multiset::group_multiset_axioms;

    if n > 0 {
        lemma_route_hits_count(routes, l, n - 1, x);
        lemma_listener_hits_count(routes[n - 1].listeners@, l, (n - 1) as usize, x);
    }
}

/// Mapping a sequence through a function that is one-to-one on its items
/// keeps each item's count.
proof fn lemma_map_count(s: Seq<usize>, f: spec_fn(usize) -> usize, y: usize)
    requires
        forall|a: usize, b: usize| s.contains(a) && s.contains(b) && f(a) == f(b) ==> a == b,
        s.contains(y),
    ensures
        s.map_values(f).to_multiset().count(f(y)) == s.to_multiset().count(y),
    decreases s.len(),
{
    broadcast use vstd::multiset::group_multiset_axioms;
    broadcast use vstd::seq_lib::group_to_multiset_ensures;

    let d = s.drop_last();
    assert(s.map_values(f) =~= d.map_values(f).push(f(s.last())));
    assert(s =~= d.push(s.last()));
    assert forall|a: usize| d.contains(a) implies s.contains(a) by {
        let k = choose|k: int| 0 <= k < d.len() && d[k] == a;
        assert(s[k] == a);
    }
    assert(s.contains(s.last()));
    assert(f(s.last()) == f(y) <==> s.last() == y);
    assert(s.map_values(f).to_multiset().count(f(y)) == d.map_values(f).to_multiset().count(f(y)) + if f(
        s.last(),
    ) == f(y) {
        1int
    } else {
        0int
    });
    assert(s.to_multiset().count(y) == d.to_multiset().count(y) + if s.last() == y {
        1int
    } else {
        0int
    });
    if d.contains(y) {
        lemma_map_count(d, f, y);
    } else {
        assert(d.to_multiset().count(y) == 0);
        assert forall|k: int| 0 <= k < d.len() implies d.map_values(f)[k] != f(y) by {
            assert(d.contains(d[k]));
        }
        assert(!d.map_values(f).contains(f(y)));
        assert(d.map_values(f).to_multiset().count(f(y)) == 0);
    }
}

/// Positions of one configuration taken to the other through `p`.
pub open spec fn through(p: Seq<int>) -> spec_fn(usize) -> usize {
    |k: usize| p[k as int] as usize
}

proof fn lemma_mapped_hits(
    left: Config,
    right: Config,
    la: Seq<usize>,
    lb: Seq<usize>,
    p: Seq<int>,
    q: Seq<int>,
    l: Seq<char>,
)
    requires
        right.routes@.len() == left.routes@.len(),
        left.routes@.len() <= usize::MAX,
        crate::conflict::inverse_permutations(p, q, left.routes@.len() as int),
        forall|k: int| 0 <= k < right.routes@.len() ==> #[trigger] right.routes@[k] == left.routes@[p[k]],
        la.to_multiset() == route_hits(left.routes@, l, left.routes@.len() as int),
        lb.to_multiset() == route_hits(right.routes@, l, right.routes@.len() as int),
    ensures
        lb.map_values(through(p)).to_multiset() == la.to_multiset(),
        forall|k: int| 0 <= k < lb.len() ==> (#[trigger] lb[k]) < left.routes@.len() && 0 <= p[lb[k] as int] < left.routes@.len(),
{
    broadcast use vstd::multiset::group_multiset_axioms;

    let n = left.routes@.len() as int;
    let f = through(p);
    let mapped = lb.map_values(f);
    lemma_inverse_routes(left.routes@, right.routes@, p, q);
    lemma_counterparts(left.routes@, right.routes@, la, lb, p, l);
    assert forall|x: usize, y: usize| lb.contains(x) && lb.contains(y) && f(x) == f(y) implies x == y by {
        let i = choose|i: int| 0 <= i < lb.len() && lb[i] == x;
        let j = choose|j: int| 0 <= j < lb.len() && lb[j] == y;
        assert(x < n && y < n);
        assert(q[p[x as int]] == x as int && q[p[y as int]] == y as int);
    }
    lb.to_multiset_ensures();
    la.to_multiset_ensures();
    mapped.to_multiset_ensures();
    assert forall|x: usize| mapped.to_multiset().count(x) == la.to_multiset().count(x) by {
        lemma_route_hits_count(left.routes@, l, n, x);
        if (x as int) < n {
            let y = q[x as int] as usize;
            lemma_route_hits_count(right.routes@, l, n, y);
            assert(right.routes@[y as int] == left.routes@[x as int]);
            assert(f(y) == x);
            if lb.contains(y) {
                lemma_map_count(lb, f, y);
            } else {
                assert(lb.to_multiset().count(y) == 0);
                assert forall|k: int| 0 <= k < mapped.len() implies mapped[k] != x by {
                    assert(lb[k] < n);
                    if mapped[k] == x {
                        assert(q[p[lb[k] as int]] == lb[k] as int);
                    }
                }
                assert(!mapped.contains(x));
            }
        } else {
            assert forall|k: int| 0 <= k < mapped.len() implies mapped[k] != x by {
                assert(lb[k] < n);
            }
            assert(!mapped.contains(x));
        }
    }
    assert(mapped.to_multiset() =~= la.to_multiset());
}

proof fn lemma_mapped_sorted(left: Config, right: Config, lb: Seq<usize>, p: Seq<int>)
    requires
        right.routes@.len() == left.routes@.len(),
        left.routes@.len() <= usize::MAX,
        p.len() == left.routes@.len(),
        forall|k: int| 0 <= k < right.routes@.len() ==> #[trigger] right.routes@[k] == left.routes@[p[k]],
        forall|k: int| 0 <= k < lb.len() ==> (#[trigger] lb[k]) < left.routes@.len() && 0 <= p[lb[k] as int] < left.routes@.len(),
        forall|i: int, j: int|
            0 <= i < j < left.routes@.len() ==> (#[trigger] left.routes@[i]).id@ != (
            #[trigger] left.routes@[j]).id@,
        sorted_keys(right.routes@, lb),
    ensures
        sorted_by(lb.map_values(through(p)), index_order(left.routes@)),
{
    let mapped = lb.map_values(through(p));
    assert forall|i: int, j: int| 0 <= i < j < mapped.len() implies #[trigger] index_order(left.routes@)(
        mapped[i],
        mapped[j],
    ) by {
        assert(!key_lt(right.routes@, lb[j], lb[i]));
        assert(lb[i] < left.routes@.len() && lb[j] < left.routes@.len());
        assert(mapped[i] == through(p)(lb[i]) && mapped[j] == through(p)(lb[j]));
        assert(mapped[i] as int == p[lb[i] as int] && mapped[j] as int == p[lb[j] as int]);
        assert(right.routes@[lb[i] as int] == left.routes@[p[lb[i] as int]]);
        assert(right.routes@[lb[j] as int] == left.routes@[p[lb[j] as int]]);
        assert(right.routes@[lb[i] as int] == left.routes@[mapped[i] as int]);
        assert(right.routes@[lb[j] as int] == left.routes@[mapped[j] as int]);
        if id_bytes(left.routes@, mapped[j]) == id_bytes(left.routes@, mapped[i]) {
            vstd::utf8::encode_utf8_decode_utf8(left.routes@[mapped[j] as int].id@);
            vstd::utf8::encode_utf8_decode_utf8(left.routes@[mapped[i] as int].id@);
            if mapped[i] < mapped[j] {
                assert(left.routes@[mapped[i] as int].id@ != left.routes@[mapped[j] as int].id@);
            } else if mapped[j] < mapped[i] {
                assert(left.routes@[mapped[j] as int].id@ != left.routes@[mapped[i] as int].id@);
            }
        }
    }
}

/// Declaration order never changes the route IDs a listener lists. For two
/// configurations whose routes are the same routes in another order, with
/// distinct IDs, the lists compiled for a listener give the same IDs in the
/// same (ascending) order.
pub proof fn lemma_route_ids_ignore_order(
    left: Config,
    right: Config,
    a: RouteIndex,
    b: RouteIndex,
    p: Seq<int>,
    q: Seq<int>,
    l: Seq<char>,
)
    requires
        right.routes@.len() == left.routes@.len(),
        left.routes@.len() <= usize::MAX,
        crate::conflict::inverse_permutations(p, q, left.routes@.len() as int),
        forall|k: int| 0 <= k < right.routes@.len() ==> #[trigger] right.routes@[k] == left.routes@[p[k]],
        forall|i: int, j: int|
            0 <= i < j < left.routes@.len() ==> (#[trigger] left.routes@[i]).id@ != (
            #[trigger] left.routes@[j]).id@,
        a.routes_for(l).to_multiset() == route_hits(left.routes@, l, left.routes@.len() as int),
        b.routes_for(l).to_multiset() == route_hits(right.routes@, l, right.routes@.len() as int),
        sorted_keys(left.routes@, a.routes_for(l)),
        sorted_keys(right.routes@, b.routes_for(l)),
    ensures
        a.routes_for(l).len() == b.routes_for(l).len(),
        forall|i: int|
            0 <= i < a.routes_for(l).len() ==> left.routes@[#[trigger] a.routes_for(l)[i] as int].id@
                == right.routes@[b.routes_for(l)[i] as int].id@,
{
    let la = a.routes_for(l);
    let lb = b.routes_for(l);
    lemma_mapped_hits(left, right, la, lb, p, q, l);
    lemma_mapped_sorted(left, right, lb, p);
    lemma_key_order_total(left.routes@);
    let mapped = lb.map_values(through(p));
    assert forall|i: int, j: int| 0 <= i < j < la.len() implies #[trigger] index_order(left.routes@)(
        la[i],
        la[j],
    ) by {}
    vstd::seq_lib::lemma_sorted_unique(mapped, la, index_order(left.routes@));
    assert forall|i: int| 0 <= i < la.len() implies left.routes@[#[trigger] la[i] as int].id@
        == right.routes@[lb[i] as int].id@ by {
        assert(la[i] == mapped[i]);
        assert(right.routes@[lb[i] as int] == left.routes@[p[lb[i] as int]]);
    }
}

} // verus!
