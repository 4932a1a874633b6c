//! Request limits: per-client accounting of the non-queuing in-flight
//! limit, and which limit policy of a route applies.

use vstd::prelude::*;
use crate::net::IpAddress;
use crate::schema::{Config, MiddlewareConfig, RouteConfig, RateLimitKey};

verus! {

/// Active requests per client address.
#[derive(Debug)]
pub struct ClientCounts {
    entries: Vec<(IpAddress, usize)>,
}

/// The count stored for `ip`, or zero.
pub open spec fn count_in(entries: Seq<(IpAddress, usize)>, ip: IpAddress) -> nat
    decreases entries.len(),
{
    if entries.len() == 0 {
        0
    } else if entries.last().0 == ip {
        entries.last().1 as nat
    } else {
        count_in(entries.drop_last(), ip)
    }
}

/// Addresses occur once, each with a positive count.
pub open spec fn counts_wf(entries: Seq<(IpAddress, usize)>) -> bool {
    &&& forall|i: int, j: int|
        0 <= i < j < entries.len() ==> (#[trigger] entries[i]).0 != (#[trigger] entries[j]).0
    &&& forall|i: int| 0 <= i < entries.len() ==> (#[trigger] entries[i]).1 > 0
}

proof fn lemma_count_at(entries: Seq<(IpAddress, usize)>, i: int)
    requires
        counts_wf(entries),
        0 <= i < entries.len(),
    ensures
        count_in(entries, entries[i].0) == entries[i].1,
    decreases entries.len(),
{
    if i < entries.len() - 1 {
        assert(entries.drop_last()[i] == entries[i]);
        lemma_count_at(entries.drop_last(), i);
    }
}

proof fn lemma_count_absent(entries: Seq<(IpAddress, usize)>, ip: IpAddress)
    requires
        forall|i: int| 0 <= i < entries.len() ==> (#[trigger] entries[i]).0 != ip,
    ensures
        count_in(entries, ip) == 0,
    decreases entries.len(),
{
    if entries.len() > 0 {
        assert forall|i: int| 0 <= i < entries.drop_last().len() implies (
        #[trigger] entries.drop_last()[i]).0 != ip by {
            assert(entries.drop_last()[i] == entries[i]);
        }
        lemma_count_absent(entries.drop_last(), ip);
    }
}

/// Counts at any address other than the one at position `i` do not depend
/// on the entry at `i`.
proof fn lemma_count_update(
    entries: Seq<(IpAddress, usize)>,
    i: int,
    e: (IpAddress, usize),
    ip: IpAddress,
)
    requires
        0 <= i < entries.len(),
        entries[i].0 != ip,
        e.0 != ip,
    ensures
        count_in(entries.update(i, e), ip) == count_in(entries, ip),
    decreases entries.len(),
{
    if i < entries.len() - 1 {
        assert(entries.update(i, e).drop_last() =~= entries.drop_last().update(i, e));
        lemma_count_update(entries.drop_last(), i, e, ip);
    } else {
        assert(entries.update(i, e).drop_last() =~= entries.drop_last());
    }
}

proof fn lemma_count_remove(entries: Seq<(IpAddress, usize)>, i: int, ip: IpAddress)
    requires
        0 <= i < entries.len(),
        entries[i].0 != ip,
    ensures
        count_in(entries.remove(i), ip) == count_in(entries, ip),
    decreases entries.len(),
{
    if i < entries.len() - 1 {
        assert(entries.remove(i).drop_last() =~= entries.drop_last().remove(i));
        assert(entries.remove(i).last() == entries.last());
        lemma_count_remove(entries.drop_last(), i, ip);
    } else {
        assert(entries.remove(i) =~= entries.drop_last());
    }
}

/// An acquire step: granted exactly while the client is below the bound,
/// adding one for it; no other count moves.
pub open spec fn acquire_step(
    before: ClientCounts,
    after: ClientCounts,
    client: IpAddress,
    max_per_client: usize,
    granted: bool,
) -> bool {
    &&& granted == (before.count(client) < max_per_client)
    &&& after.count(client) == if granted {
        before.count(client) + 1
    } else {
        before.count(client)
    }
    &&& forall|ip: IpAddress| ip != client ==> #[trigger] after.count(ip) == before.count(ip)
}

/// A release step: one less for the client, never below zero; no other
/// count moves.
pub open spec fn release_step(before: ClientCounts, after: ClientCounts, client: IpAddress) -> bool {
    &&& after.count(client) == if before.count(client) > 0 {
        (before.count(client) - 1) as nat
    } else {
        0
    }
    &&& forall|ip: IpAddress| ip != client ==> #[trigger] after.count(ip) == before.count(ip)
}

impl ClientCounts {
    /// Active requests of `ip`.
    pub closed spec fn count(&self, ip: IpAddress) -> nat {
        count_in(self.entries@, ip)
    }

    pub closed spec fn wf(&self) -> bool {
        counts_wf(self.entries@)
    }

    /// No client has an active request.
    pub fn new() -> (r: ClientCounts)
        ensures
            r.wf(),
            forall|ip: IpAddress| #[trigger] r.count(ip) == 0,
    {
        ClientCounts { entries: Vec::new() }
    }

    fn find(&self, client: IpAddress) -> (r: Option<usize>)
        requires
            self.wf(),
        ensures
            match r {
                Some(i) => i < self.entries@.len() && self.entries@[i as int].0 == client,
                None => forall|k: int|
                    0 <= k < self.entries@.len() ==> (#[trigger] self.entries@[k]).0 != client,
            },
    {
        let mut i: usize = 0;
        while i < self.entries.len()
            invariant
                i <= self.entries@.len(),
                forall|k: int| 0 <= k < i ==> (#[trigger] self.entries@[k]).0 != client,
            decreases self.entries@.len() - i,
        {
            if self.entries[i].0 == client {
                return Some(i);
            }
            i += 1;
        }
        None
    }

    /// Takes one in-flight slot for a client when it is below the bound.
    pub fn acquire(&mut self, client: IpAddress, max_per_client: usize) -> (granted: bool)
        requires
            old(self).wf(),
        ensures
            final(self).wf(),
            acquire_step(*old(self), *final(self), client, max_per_client, granted),
    {
        let ghost before = self.entries@;
        match self.find(client) {
            Some(i) => {
                let active = self.entries[i].1;
                proof {
                    lemma_count_at(before, i as int);
                }
                if active >= max_per_client {
                    return false;
                }
                self.entries.set(i, (client, active + 1));
                proof {
                    let after = self.entries@;
                    assert(after =~= before.update(i as int, (client, (active + 1) as usize)));
                    assert forall|a: int, b: int|
                        0 <= a < b < after.len() implies (#[trigger] after[a]).0 != (
                    #[trigger] after[b]).0 by {
                        assert(before[a].0 == after[a].0 && before[b].0 == after[b].0);
                    }
                    lemma_count_at(after, i as int);
                    assert forall|ip: IpAddress| ip != client implies #[trigger] count_in(
                        after,
                        ip,
                    ) == count_in(before, ip) by {
                        lemma_count_update(before, i as int, (client, (active + 1) as usize), ip);
                    }
                }
                true
            },
            None => {
                proof {
                    lemma_count_absent(before, client);
                }
                if max_per_client == 0 {
                    return false;
                }
                self.entries.push((client, 1));
                proof {
                    let after = self.entries@;
                    assert(after.drop_last() =~= before);
                    assert forall|ip: IpAddress| ip != client implies #[trigger] count_in(
                        after,
                        ip,
                    ) == count_in(before, ip) by {}
                }
                true
            },
        }
    }

    /// Returns one in-flight slot of a client; a client with none left is
    /// forgotten.
    pub fn release(&mut self, client: IpAddress)
        requires
            old(self).wf(),
        ensures
            final(self).wf(),
            release_step(*old(self), *final(self), client),
    {
        let ghost before = self.entries@;
        match self.find(client) {
            Some(i) => {
                let active = self.entries[i].1;
                proof {
                    lemma_count_at(before, i as int);
                }
                if active <= 1 {
                    self.entries.remove(i);
                    proof {
                        let after = self.entries@;
                        assert(after =~= before.remove(i as int));
                        assert forall|k: int| 0 <= k < after.len() implies (
                        #[trigger] after[k]).0 != client by {
                            if k < i {
                                assert(after[k] == before[k]);
                            } else {
                                assert(after[k] == before[k + 1]);
                            }
                        }
                        lemma_count_absent(after, client);
                        assert forall|a: int, b: int|
                            0 <= a < b < after.len() implies (#[trigger] after[a]).0 != (
                        #[trigger] after[b]).0 by {
                            let a2 = if a < i {
                                a
                            } else {
                                a + 1
                            };
                            let b2 = if b < i {
                                b
                            } else {
                                b + 1
                            };
                            assert(after[a] == before[a2] && after[b] == before[b2]);
                        }
                        assert forall|ip: IpAddress| ip != client implies #[trigger] count_in(
                            after,
                            ip,
                        ) == count_in(before, ip) by {
                            lemma_count_remove(before, i as int, ip);
                        }
                    }
                } else {
                    self.entries.set(i, (client, active - 1));
                    proof {
                        let after = self.entries@;
                        assert(after =~= before.update(i as int, (client, (active - 1) as usize)));
                        assert forall|a: int, b: int|
                            0 <= a < b < after.len() implies (#[trigger] after[a]).0 != (
                        #[trigger] after[b]).0 by {
                            assert(before[a].0 == after[a].0 && before[b].0 == after[b].0);
                        }
                        lemma_count_at(after, i as int);
                        assert forall|ip: IpAddress| ip != client implies #[trigger] count_in(
                            after,
                            ip,
                        ) == count_in(before, ip) by {
                            lemma_count_update(before, i as int, (client, (active - 1) as usize), ip);
                        }
                    }
                }
            },
            None => {
                proof {
                    lemma_count_absent(before, client);
                }
            },
        }
    }

    /// Active requests of a client.
    pub fn active(&self, client: IpAddress) -> (r: usize)
        requires
            self.wf(),
        ensures
            r == self.count(client),
    {
        match self.find(client) {
            Some(i) => {
                proof {
                    lemma_count_at(self.entries@, i as int);
                }
                self.entries[i].1
            },
            None => {
                proof {
                    lemma_count_absent(self.entries@, client);
                }
                0
            },
        }
    }
}

/// Releasing a granted slot restores every count.
pub proof fn lemma_release_undoes_acquire(
    a: ClientCounts,
    b: ClientCounts,
    c: ClientCounts,
    client: IpAddress,
    max_per_client: usize,
)
    requires
        acquire_step(a, b, client, max_per_client, true),
        release_step(b, c, client),
    ensures
        forall|ip: IpAddress| #[trigger] c.count(ip) == a.count(ip),
{
    assert forall|ip: IpAddress| #[trigger] c.count(ip) == a.count(ip) by {
        if ip != client {
            assert(c.count(ip) == b.count(ip));
        }
    }
}

/// A client at or below the bound stays at or below it, whatever is asked.
pub proof fn lemma_acquire_respects_bound(
    a: ClientCounts,
    b: ClientCounts,
    client: IpAddress,
    max_per_client: usize,
    granted: bool,
)
    requires
        acquire_step(a, b, client, max_per_client, granted),
        a.count(client) <= max_per_client,
    ensures
        b.count(client) <= max_per_client,
{
}

/// Position of the first route middleware naming an in-flight limit.
pub open spec fn first_in_flight(config: Config, ids: Seq<String>, i: int) -> Option<int>
    decreases ids.len() - i,
{
    if i < 0 || i >= ids.len() {
        None
    } else if config.middlewares.spec_get(ids[i]@) matches Some(m) && m is InFlightLimit {
        Some(i)
    } else {
        first_in_flight(config, ids, i + 1)
    }
}

proof fn lemma_first_in_flight(config: Config, ids: Seq<String>, k: int)
    requires
        0 <= k,
    ensures
        first_in_flight(config, ids, k) matches Some(j) ==> k <= j < ids.len(),
    decreases ids.len() - k,
{
    if k < ids.len() {
        lemma_first_in_flight(config, ids, k + 1);
    }
}

/// The route's in-flight limit policy: its position in the route's
/// middleware list.
pub fn in_flight_policy(config: &Config, route: &RouteConfig) -> (r: Option<usize>)
    ensures
        r is None <==> first_in_flight(*config, route.middlewares@, 0) is None,
        r matches Some(i) ==> first_in_flight(*config, route.middlewares@, 0) == Some(i as int),
{
    proof {
        lemma_first_in_flight(*config, route.middlewares@, 0);
    }
    let mut i: usize = 0;
    while i < route.middlewares.len()
        invariant
            i <= route.middlewares@.len(),
            first_in_flight(*config, route.middlewares@, 0) == first_in_flight(
                *config,
                route.middlewares@,
                i as int,
            ),
        decreases route.middlewares@.len() - i,
    {
        match config.middlewares.get(route.middlewares[i].as_str()) {
            Some(MiddlewareConfig::InFlightLimit { .. }) => {
                return Some(i);
            },
            _ => {},
        }
        i += 1;
    }
    None
}

/// Position of the first route middleware naming a rate limit keyed by
/// `key`.
pub open spec fn first_rate_limit(config: Config, ids: Seq<String>, key: RateLimitKey, i: int) -> Option<
    int,
>
    decreases ids.len() - i,
{
    if i < 0 || i >= ids.len() {
        None
    } else if config.middlewares.spec_get(ids[i]@) matches Some(m) && (m matches MiddlewareConfig::RateLimit {
        key: k,
        ..
    } && k == key) {
        Some(i)
    } else {
        first_rate_limit(config, ids, key, i + 1)
    }
}

proof fn lemma_first_rate_limit(config: Config, ids: Seq<String>, key: RateLimitKey, k: int)
    requires
        0 <= k,
    ensures
        first_rate_limit(config, ids, key, k) matches Some(j) ==> k <= j < ids.len(),
    decreases ids.len() - k,
{
    if k < ids.len() {
        lemma_first_rate_limit(config, ids, key, k + 1);
    }
}

/// The route's rate-limit policy for a key source: its position in the
/// route's middleware list.
pub fn rate_limit_policy(config: &Config, route: &RouteConfig, key: RateLimitKey) -> (r: Option<
    usize,
>)
    ensures
        r is None <==> first_rate_limit(*config, route.middlewares@, key, 0) is None,
        r matches Some(i) ==> first_rate_limit(*config, route.middlewares@, key, 0) == Some(
            i as int,
        ),
{
    proof {
        lemma_first_rate_limit(*config, route.middlewares@, key, 0);
    }
    let mut i: usize = 0;
    while i < route.middlewares.len()
        invariant
            i <= route.middlewares@.len(),
            first_rate_limit(*config, route.middlewares@, key, 0) == first_rate_limit(
                *config,
                route.middlewares@,
                key,
                i as int,
            ),
        decreases route.middlewares@.len() - i,
    {
        match config.middlewares.get(route.middlewares[i].as_str()) {
            Some(MiddlewareConfig::RateLimit { key: k, .. }) => {
                if *k == key {
                    return Some(i);
                }
            },
            _ => {},
        }
        i += 1;
    }
    None
}

/// The outcome of asking an in-flight limiter for a slot.
#[derive(Clone, Copy, Debug, PartialEq, Eq, Structural)]
pub enum InFlightOutcome {
    /// A slot was taken; release it when the response ends.
    Acquired,
    /// The route or the client is at its bound: answer with this status.
    Limited(u16),
    /// The configured status is no valid status code.
    Unavailable,
}

/// A route's non-queuing in-flight limit: a bound on all requests and one
/// per client.
#[derive(Debug)]
pub struct InFlightLimiter {
    active: usize,
    max_requests: usize,
    max_per_client: usize,
    status: u16,
    clients: ClientCounts,
}

impl InFlightLimiter {
    pub closed spec fn wf(&self) -> bool {
        &&& self.clients.wf()
        &&& self.active <= self.max_requests
    }

    /// Requests holding a slot.
    pub closed spec fn spec_active(&self) -> nat {
        self.active as nat
    }

    /// Requests of one client holding a slot.
    pub closed spec fn spec_client(&self, ip: IpAddress) -> nat {
        self.clients.count(ip)
    }

    pub closed spec fn spec_max_requests(&self) -> usize {
        self.max_requests
    }

    pub closed spec fn spec_max_per_client(&self) -> usize {
        self.max_per_client
    }

    pub closed spec fn spec_status(&self) -> u16 {
        self.status
    }

    /// A limiter with no request in flight.
    pub fn new(max_requests: usize, max_per_client: usize, status: u16) -> (r: InFlightLimiter)
        ensures
            r.wf(),
            r.spec_active() == 0,
            forall|ip: IpAddress| #[trigger] r.spec_client(ip) == 0,
            r.spec_max_requests() == max_requests,
            r.spec_max_per_client() == max_per_client,
            r.spec_status() == status,
    {
        InFlightLimiter { active: 0, max_requests, max_per_client, status, clients: ClientCounts::new() }
    }

    fn limited(&self) -> (r: InFlightOutcome)
        ensures
            r == if 100 <= self.status <= 999 {
                InFlightOutcome::Limited(self.status)
            } else {
                InFlightOutcome::Unavailable
            },
    {
        if 100 <= self.status && self.status <= 999 {
            InFlightOutcome::Limited(self.status)
        } else {
            InFlightOutcome::Unavailable
        }
    }

    /// Takes a slot for a client when the route and the client are both
    /// below their bounds; otherwise nothing changes and the configured
    /// status answers.
    pub fn acquire(&mut self, client: IpAddress) -> (r: InFlightOutcome)
        requires
            old(self).wf(),
        ensures
            final(self).wf(),
            final(self).spec_max_requests() == old(self).spec_max_requests(),
            final(self).spec_max_per_client() == old(self).spec_max_per_client(),
            final(self).spec_status() == old(self).spec_status(),
            (old(self).spec_active() < old(self).spec_max_requests() && old(self).spec_client(client)
                < old(self).spec_max_per_client()) ==> {
                &&& r == InFlightOutcome::Acquired
                &&& final(self).spec_active() == old(self).spec_active() + 1
                &&& final(self).spec_client(client) == old(self).spec_client(client) + 1
            },
            !(old(self).spec_active() < old(self).spec_max_requests() && old(self).spec_client(client)
                < old(self).spec_max_per_client()) ==> {
                &&& r == if 100 <= old(self).spec_status() <= 999 {
                    InFlightOutcome::Limited(old(self).spec_status())
                } else {
                    InFlightOutcome::Unavailable
                }
                &&& final(self).spec_active() == old(self).spec_active()
                &&& final(self).spec_client(client) == old(self).spec_client(client)
            },
            forall|ip: IpAddress| ip != client ==> #[trigger] final(self).spec_client(ip) == old(self).spec_client(ip),
    {
        if self.active >= self.max_requests {
            return self.limited();
        }
        if self.clients.acquire(client, self.max_per_client) {
            self.active = self.active + 1;
            InFlightOutcome::Acquired
        } else {
            self.limited()
        }
    }

    /// Returns a slot taken by `acquire`.
    pub fn release(&mut self, client: IpAddress)
        requires
            old(self).wf(),
        ensures
            final(self).wf(),
            final(self).spec_max_requests() == old(self).spec_max_requests(),
            final(self).spec_max_per_client() == old(self).spec_max_per_client(),
            final(self).spec_status() == old(self).spec_status(),
            final(self).spec_active() == if old(self).spec_active() > 0 {
                (old(self).spec_active() - 1) as nat
            } else {
                0
            },
            final(self).spec_client(client) == if old(self).spec_client(client) > 0 {
                (old(self).spec_client(client) - 1) as nat
            } else {
                0
            },
            forall|ip: IpAddress| ip != client ==> #[trigger] final(self).spec_client(ip) == old(self).spec_client(ip),
    {
        if self.active > 0 {
            self.active = self.active - 1;
        }
        self.clients.release(client);
    }

    /// Requests holding a slot.
    pub fn active(&self) -> (r: usize)
        ensures
            r == self.spec_active(),
    {
        self.active
    }

    /// Requests of one client holding a slot.
    pub fn client_active(&self, client: IpAddress) -> (r: usize)
        requires
            self.wf(),
        ensures
            r == self.spec_client(client),
    {
        self.clients.active(client)
    }
}

} // verus!
