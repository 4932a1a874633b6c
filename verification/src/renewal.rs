//! Certificate renewal bookkeeping between reconciliation passes: failure
//! counts and retry deadlines per managed certificate, and which expiry
//! alerts were already raised. Instants are monotonic milliseconds.

use vstd::prelude::*;
use crate::text::str_eq;
use crate::schema::{AcmeCertificateConfig, AcmeConfig};

verus! {

/// Redacted public certificate-generation status.
#[derive(Clone, Debug)]
pub struct CertificateStatus {
    /// Stable configured certificate ID.
    pub id: String,
    /// Validated covered host names.
    pub hosts: Vec<String>,
    /// Immutable stored generation ID.
    pub generation: String,
    /// Public issuer display name.
    pub issuer: String,
    /// Certificate validity start as Unix seconds.
    pub not_before_unix_secs: i64,
    /// Certificate validity end as Unix seconds.
    pub not_after_unix_secs: i64,
    /// Whether ACME automation owns this generation.
    pub managed: bool,
}

/// What is kept for one certificate.
#[derive(Clone, Debug)]
pub struct RenewalEntry {
    pub id: String,
    pub attempts: Option<u32>,
    pub retry_at_ms: Option<u64>,
    pub alert_days: Option<u16>,
}

/// Per-certificate renewal state, one entry per certificate ID.
#[derive(Debug)]
pub struct RenewalState {
    entries: Vec<RenewalEntry>,
}

/// The view of one certificate's state.
pub struct RenewalRecord {
    pub attempts: Option<u32>,
    pub retry_at_ms: Option<u64>,
    pub alert_days: Option<u16>,
}

pub open spec fn empty_record() -> RenewalRecord {
    RenewalRecord { attempts: None, retry_at_ms: None, alert_days: None }
}

pub open spec fn ids_distinct(e: Seq<RenewalEntry>) -> bool {
    forall|i: int, j: int| 0 <= i < j < e.len() ==> (#[trigger] e[i]).id@ != (#[trigger] e[j]).id@
}

pub open spec fn record_in(e: Seq<RenewalEntry>, id: Seq<char>) -> RenewalRecord
    decreases e.len(),
{
    if e.len() == 0 {
        empty_record()
    } else if e.last().id@ == id {
        RenewalRecord {
            attempts: e.last().attempts,
            retry_at_ms: e.last().retry_at_ms,
            alert_days: e.last().alert_days,
        }
    } else {
        record_in(e.drop_last(), id)
    }
}

proof fn lemma_record_at(e: Seq<RenewalEntry>, i: int)
    requires
        ids_distinct(e),
        0 <= i < e.len(),
    ensures
        record_in(e, e[i].id@) == (RenewalRecord {
            attempts: e[i].attempts,
            retry_at_ms: e[i].retry_at_ms,
            alert_days: e[i].alert_days,
        }),
    decreases e.len(),
{
    if i < e.len() - 1 {
        assert(e.drop_last()[i] == e[i]);
        assert(ids_distinct(e.drop_last()));
        lemma_record_at(e.drop_last(), i);
    }
}

proof fn lemma_record_absent(e: Seq<RenewalEntry>, id: Seq<char>)
    requires
        forall|k: int| 0 <= k < e.len() ==> (#[trigger] e[k]).id@ != id,
    ensures
        record_in(e, id) == empty_record(),
    decreases e.len(),
{
    if e.len() > 0 {
        assert(e.drop_last().len() < e.len());
        assert forall|k: int| 0 <= k < e.drop_last().len() implies (#[trigger] e.drop_last()[k]).id@ != id by {
            assert(e.drop_last()[k] == e[k]);
        }
        lemma_record_absent(e.drop_last(), id);
    }
}

/// Updating the entry at `i` changes only its own record.
proof fn lemma_record_update(e: Seq<RenewalEntry>, i: int, x: RenewalEntry, other: Seq<char>)
    requires
        ids_distinct(e),
        0 <= i < e.len(),
        x.id@ == e[i].id@,
    ensures
        ids_distinct(e.update(i, x)),
        other != x.id@ ==> record_in(e.update(i, x), other) == record_in(e, other),
    decreases e.len(),
{
    let u = e.update(i, x);
    assert forall|a: int, b: int| 0 <= a < b < u.len() implies (#[trigger] u[a]).id@ != (#[trigger] u[b]).id@ by {
        assert(e[a].id@ != e[b].id@);
    }
    if e.len() > 0 {
        if i == e.len() - 1 {
            assert(u.drop_last() =~= e.drop_last());
        } else {
            assert(u.drop_last() =~= e.drop_last().update(i, x));
            assert(ids_distinct(e.drop_last()));
            lemma_record_update(e.drop_last(), i, x, other);
        }
    }
}

/// Appending an entry for a new ID changes only that ID's record.
proof fn lemma_record_push(e: Seq<RenewalEntry>, x: RenewalEntry, other: Seq<char>)
    requires
        ids_distinct(e),
        forall|k: int| 0 <= k < e.len() ==> (#[trigger] e[k]).id@ != x.id@,
        other != x.id@,
    ensures
        ids_distinct(e.push(x)),
        record_in(e.push(x), other) == record_in(e, other),
{
    assert(e.push(x).drop_last() =~= e);
}

impl RenewalState {
    pub closed spec fn wf(&self) -> bool {
        ids_distinct(self.entries@)
    }

    /// The state kept for a certificate ID.
    pub closed spec fn record(&self, id: Seq<char>) -> RenewalRecord {
        record_in(self.entries@, id)
    }

    /// Nothing recorded for any certificate.
    pub fn new() -> (r: RenewalState)
        ensures
            r.wf(),
            forall|id: Seq<char>| #[trigger] r.record(id) == empty_record(),
    {
        RenewalState { entries: Vec::new() }
    }

    fn find(&self, id: &str) -> (r: Option<usize>)
        requires
            self.wf(),
        ensures
            match r {
                Some(i) => i < self.entries@.len() && self.entries@[i as int].id@ == id@,
                None => forall|k: int| 0 <= k < self.entries@.len() ==> (#[trigger] self.entries@[k]).id@ != id@,
            },
    {
        let mut i: usize = 0;
        while i < self.entries.len()
            invariant
                i <= self.entries@.len(),
                forall|k: int| 0 <= k < i ==> (#[trigger] self.entries@[k]).id@ != id@,
            decreases self.entries@.len() - i,
        {
            if str_eq(self.entries[i].id.as_str(), id) {
                return Some(i);
            }
            i += 1;
        }
        None
    }

    /// The recorded state of a certificate.
    pub fn get(&self, id: &str) -> (r: (Option<u32>, Option<u64>, Option<u16>))
        requires
            self.wf(),
        ensures
            r.0 == self.record(id@).attempts,
            r.1 == self.record(id@).retry_at_ms,
            r.2 == self.record(id@).alert_days,
    {
        match self.find(id) {
            Some(i) => {
                proof {
                    lemma_record_at(self.entries@, i as int);
                }
                let e = &self.entries[i];
                (e.attempts, e.retry_at_ms, e.alert_days)
            },
            None => {
                proof {
                    lemma_record_absent(self.entries@, id@);
                }
                (None, None, None)
            },
        }
    }

    /// Replaces the record of one certificate; no other record changes.
    pub fn put(&mut self, id: &str, attempts: Option<u32>, retry_at_ms: Option<u64>, alert_days: Option<u16>)
        requires
            old(self).wf(),
        ensures
            final(self).wf(),
            final(self).record(id@) == (RenewalRecord { attempts, retry_at_ms, alert_days }),
            forall|other: Seq<char>| other != id@ ==> #[trigger] final(self).record(other) == old(self).record(other),
    {
        let entry = RenewalEntry { id: String::from_str(id), attempts, retry_at_ms, alert_days };
        let ghost before = self.entries@;
        match self.find(id) {
            Some(i) => {
                self.entries.set(i, entry);
                proof {
                    assert forall|other: Seq<char>| other != id@ implies #[trigger] record_in(self.entries@, other)
                        == record_in(before, other) by {
                        lemma_record_update(before, i as int, entry, other);
                    }
                    lemma_record_update(before, i as int, entry, id@);
                    lemma_record_at(self.entries@, i as int);
                }
            },
            None => {
                self.entries.push(entry);
                proof {
                    assert forall|other: Seq<char>| other != id@ implies #[trigger] record_in(self.entries@, other)
                        == record_in(before, other) by {
                        lemma_record_push(before, entry, other);
                    }
                    assert(self.entries@.drop_last() =~= before);
                    assert(ids_distinct(self.entries@)) by {
                        assert forall|a: int, b: int| 0 <= a < b < self.entries@.len() implies (
                        #[trigger] self.entries@[a]).id@ != (#[trigger] self.entries@[b]).id@ by {
                            if b == before.len() {
                                assert(before[a].id@ != id@);
                            } else {
                                assert(before[a].id@ != before[b].id@);
                            }
                        }
                    }
                }
            },
        }
    }

    /// Forgets every certificate whose ID is not configured any more.
    pub fn retain_configured(&mut self, certificates: &Vec<AcmeCertificateConfig>)
        requires
            old(self).wf(),
        ensures
            final(self).wf(),
            forall|id: Seq<char>| #[trigger] final(self).record(id) == if exists|k: int|
                0 <= k < certificates@.len() && (#[trigger] certificates@[k]).id@ == id {
                old(self).record(id)
            } else {
                empty_record()
            },
    {
        let mut kept: Vec<RenewalEntry> = Vec::new();
        let ghost before = self.entries@;
        let mut i: usize = 0;
        while i < self.entries.len()
            invariant
                before == self.entries@,
                ids_distinct(before),
                i <= before.len(),
                ids_distinct(kept@),
                forall|k: int| 0 <= k < kept@.len() ==> exists|m: int| 0 <= m < i && (#[trigger] before[m]).id@ == (#[trigger] kept@[k]).id@,
                forall|id: Seq<char>| #[trigger] record_in(kept@, id) == if exists|k: int|
                    0 <= k < certificates@.len() && (#[trigger] certificates@[k]).id@ == id {
                    record_in(before.take(i as int), id)
                } else {
                    empty_record()
                },
            decreases before.len() - i,
        {
            let e = &self.entries[i];
            let mut configured = false;
            let mut c: usize = 0;
            while c < certificates.len()
                invariant
                    c <= certificates@.len(),
                    configured <==> exists|k: int| 0 <= k < c && (#[trigger] certificates@[k]).id@ == e.id@,
                decreases certificates@.len() - c,
            {
                if str_eq(certificates[c].id.as_str(), e.id.as_str()) {
                    configured = true;
                }
                c += 1;
            }
            let ghost prefix = before.take(i as int);
            let ghost next = before.take(i + 1);
            proof {
                assert(next.drop_last() =~= prefix);
                assert forall|k: int| 0 <= k < kept@.len() implies (#[trigger] kept@[k]).id@ != e.id@ by {
                    let m = choose|m: int| 0 <= m < i && (#[trigger] before[m]).id@ == (#[trigger] kept@[k]).id@;
                    assert(before[m].id@ != before[i as int].id@);
                }
            }
            if configured {
                let copy = RenewalEntry {
                    id: String::from_str(e.id.as_str()),
                    attempts: e.attempts,
                    retry_at_ms: e.retry_at_ms,
                    alert_days: e.alert_days,
                };
                let ghost old_kept = kept@;
                kept.push(copy);
                proof {
                    assert(kept@.drop_last() =~= old_kept);
                    assert(ids_distinct(kept@)) by {
                        assert forall|a: int, b: int| 0 <= a < b < kept@.len() implies (
                        #[trigger] kept@[a]).id@ != (#[trigger] kept@[b]).id@ by {
                            if b < old_kept.len() {
                                assert(old_kept[a].id@ != old_kept[b].id@);
                            }
                        }
                    }
                    assert forall|k: int| 0 <= k < kept@.len() implies exists|m: int|
                        0 <= m < i + 1 && (#[trigger] before[m]).id@ == (#[trigger] kept@[k]).id@ by {
                        if k < old_kept.len() {
                            let m = choose|m: int| 0 <= m < i && (#[trigger] before[m]).id@ == (#[trigger] old_kept[k]).id@;
                            assert(before[m].id@ == kept@[k].id@);
                        } else {
                            assert(kept@[k].id@ == before[i as int].id@);
                        }
                    }
                    assert forall|id: Seq<char>| #[trigger] record_in(kept@, id) == if exists|k: int|
                        0 <= k < certificates@.len() && (#[trigger] certificates@[k]).id@ == id {
                        record_in(next, id)
                    } else {
                        empty_record()
                    } by {
                        if id == e.id@ {
                        } else {
                            assert(record_in(kept@, id) == record_in(old_kept, id));
                        }
                    }
                }
            } else {
                proof {
                    assert forall|k: int| 0 <= k < kept@.len() implies exists|m: int|
                        0 <= m < i + 1 && (#[trigger] before[m]).id@ == (#[trigger] kept@[k]).id@ by {
                        let m = choose|m: int| 0 <= m < i && (#[trigger] before[m]).id@ == (#[trigger] kept@[k]).id@;
                        assert(before[m].id@ == kept@[k].id@);
                    }
                    assert forall|id: Seq<char>| #[trigger] record_in(kept@, id) == if exists|k: int|
                        0 <= k < certificates@.len() && (#[trigger] certificates@[k]).id@ == id {
                        record_in(next, id)
                    } else {
                        empty_record()
                    } by {
                        if id == e.id@ {
                            lemma_record_absent(kept@, id);
                        }
                    }
                }
            }
            i += 1;
        }
        proof {
            assert(before.take(before.len() as int) =~= before);
        }
        self.entries = kept;
    }
}

/// `a + b`, held at the type's maximum.
pub open spec fn sat_add_u64(a: u64, b: u64) -> u64 {
    if a + b > u64::MAX {
        u64::MAX
    } else {
        (a + b) as u64
    }
}

pub open spec fn sat_inc_u32(a: u32) -> u32 {
    if a == u32::MAX {
        a
    } else {
        (a + 1) as u32
    }
}

impl RenewalState {
    /// Whether a certificate is still waiting out a retry delay.
    pub fn waiting(&self, id: &str, now_ms: u64) -> (r: bool)
        requires
            self.wf(),
        ensures
            r == (self.record(id@).retry_at_ms matches Some(d) && d > now_ms),
    {
        let (_, retry_at, _) = self.get(id);
        match retry_at {
            Some(d) => d > now_ms,
            None => false,
        }
    }

    /// The number of failed attempts so far, the input of the retry delay.
    pub fn failed_attempts(&self, id: &str) -> (r: u32)
        requires
            self.wf(),
        ensures
            r == match self.record(id@).attempts {
                Some(a) => a,
                None => 0,
            },
    {
        let (attempts, _, _) = self.get(id);
        match attempts {
            Some(a) => a,
            None => 0,
        }
    }

    /// Records a failed order: one more attempt, and no new order before
    /// `delay_ms` from now. The expiry alert is kept.
    pub fn record_failure(&mut self, id: &str, delay_ms: u64, now_ms: u64)
        requires
            old(self).wf(),
        ensures
            final(self).wf(),
            final(self).record(id@).attempts == Some(sat_inc_u32(
                match old(self).record(id@).attempts {
                    Some(a) => a,
                    None => 0,
                },
            )),
            final(self).record(id@).retry_at_ms == Some(sat_add_u64(now_ms, delay_ms)),
            final(self).record(id@).alert_days == old(self).record(id@).alert_days,
            forall|other: Seq<char>| other != id@ ==> #[trigger] final(self).record(other) == old(self).record(other),
    {
        let (attempts, _, alert) = self.get(id);
        let attempt = match attempts {
            Some(a) => a,
            None => 0,
        };
        self.put(id, Some(attempt.saturating_add(1)), Some(now_ms.saturating_add(delay_ms)), alert);
    }

    /// Clears the failures of a certificate that was renewed or is not due.
    pub fn clear_failures(&mut self, id: &str)
        requires
            old(self).wf(),
        ensures
            final(self).wf(),
            final(self).record(id@).attempts is None,
            final(self).record(id@).retry_at_ms is None,
            final(self).record(id@).alert_days == old(self).record(id@).alert_days,
            forall|other: Seq<char>| other != id@ ==> #[trigger] final(self).record(other) == old(self).record(other),
    {
        let (_, _, alert) = self.get(id);
        self.put(id, None, None, alert);
    }

    /// Notes the expiry threshold a certificate has reached: `true` when an
    /// alert is due, that is, a threshold other than the one last alerted.
    /// Without a threshold the alert memory is cleared.
    pub fn note_expiry(&mut self, id: &str, days: Option<u16>) -> (alert: bool)
        requires
            old(self).wf(),
        ensures
            final(self).wf(),
            alert == (days is Some && old(self).record(id@).alert_days != days),
            final(self).record(id@).alert_days == days,
            final(self).record(id@).attempts == old(self).record(id@).attempts,
            final(self).record(id@).retry_at_ms == old(self).record(id@).retry_at_ms,
            forall|other: Seq<char>| other != id@ ==> #[trigger] final(self).record(other) == old(self).record(other),
    {
        let (attempts, retry_at, alerted) = self.get(id);
        let alert = match days {
            Some(d) => match alerted {
                Some(a) => a != d,
                None => true,
            },
            None => false,
        };
        self.put(id, attempts, retry_at, days);
        alert
    }
}

/// Whether some due certificate is ordered from this issuer.
pub fn issuer_needed(issuer: &str, due: &Vec<AcmeCertificateConfig>) -> (r: bool)
    ensures
        r == exists|k: int| 0 <= k < due@.len() && (#[trigger] due@[k]).issuer@ == issuer@,
{
    let mut k: usize = 0;
    while k < due.len()
        invariant
            k <= due@.len(),
            forall|j: int| 0 <= j < k ==> (#[trigger] due@[j]).issuer@ != issuer@,
        decreases due@.len() - k,
    {
        if str_eq(due[k].issuer.as_str(), issuer) {
            return true;
        }
        k += 1;
    }
    false
}

} // verus!
