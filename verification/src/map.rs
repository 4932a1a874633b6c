//! A string-keyed map that keeps its entries in key order.

use vstd::prelude::*;
use crate::text::{str_eq, utf8};
use crate::index::{lex_lt, bytes_lt, lemma_lex_irreflexive, lemma_lex_total, lemma_lex_transitive};

verus! {

/// String-keyed map whose entries run in increasing key order, byte by
/// byte as `str` orders texts; a key therefore occurs in at most one entry.
#[derive(Debug)]
pub struct OrderedMap<V> {
    entries: Vec<(String, V)>,
}

impl<V: Clone> Clone for OrderedMap<V> {
    /// A copy with the same keys in the same order, each value cloned.
    fn clone(&self) -> (r: Self)
        ensures
            r.spec_entries().len() == self.spec_entries().len(),
            forall|i: int|
                0 <= i < self.spec_entries().len() ==> (#[trigger] r.spec_entries()[i]).0
                    == self.spec_entries()[i].0 && cloned::<V>(self.spec_entries()[i].1, r.spec_entries()[i].1),
    {
        proof {
            use_type_invariant(self);
        }
        let mut entries: Vec<(String, V)> = Vec::new();
        let mut i: usize = 0;
        while i < self.entries.len()
            invariant
                i <= self.entries@.len(),
                sorted_entries(self.entries@),
                entries@.len() == i,
                forall|a: int|
                    0 <= a < i ==> (#[trigger] entries@[a]).0 == self.entries@[a].0 && cloned::<V>(
                        self.entries@[a].1,
                        entries@[a].1,
                    ),
            decreases self.entries@.len() - i,
        {
            let e = &self.entries[i];
            entries.push((e.0.clone(), e.1.clone()));
            i += 1;
        }
        proof {
            assert forall|a: int, b: int| 0 <= a < b < entries@.len() implies key_before(
                (#[trigger] entries@[a]).0@,
                (#[trigger] entries@[b]).0@,
            ) by {
                assert(entries@[a].0 == self.entries@[a].0 && entries@[b].0 == self.entries@[b].0);
            }
        }
        OrderedMap { entries }
    }
}

/// Key `a` sorts before key `b`, comparing their UTF-8 bytes.
pub open spec fn key_before(a: Seq<char>, b: Seq<char>) -> bool {
    lex_lt(utf8(a), utf8(b))
}

/// Each entry's key sorts before the keys of all later entries.
pub open spec fn sorted_entries<V>(s: Seq<(String, V)>) -> bool {
    forall|i: int, j: int|
        0 <= i < j < s.len() ==> key_before((#[trigger] s[i]).0@, (#[trigger] s[j]).0@)
}

/// Two keys are equal, or one sorts before the other.
pub proof fn lemma_key_order(a: Seq<char>, b: Seq<char>)
    ensures
        !key_before(a, a),
        a == b || key_before(a, b) || key_before(b, a),
{
    lemma_lex_irreflexive(utf8(a));
    lemma_lex_total(utf8(a), utf8(b));
    vstd::utf8::encode_utf8_decode_utf8(a);
    vstd::utf8::encode_utf8_decode_utf8(b);
}

/// Sorted entries hold each key once.
pub proof fn lemma_sorted_unique<V>(s: Seq<(String, V)>)
    requires
        sorted_entries(s),
    ensures
        forall|i: int, j: int| 0 <= i < j < s.len() ==> (#[trigger] s[i]).0@ != (#[trigger] s[j]).0@,
{
    assert forall|i: int, j: int| 0 <= i < j < s.len() implies (#[trigger] s[i]).0@ != (
    #[trigger] s[j]).0@ by {
        lemma_key_order(s[i].0@, s[j].0@);
    }
}

/// In entries that hold each key once, the entry for a key is the one
/// that carries it.
pub proof fn lemma_unique_index<V>(s: Seq<(String, V)>, i: int)
    requires
        sorted_entries(s),
        0 <= i < s.len(),
    ensures
        first_key_index(s, s[i].0@) == Some(i),
{
    lemma_sorted_unique(s);
    assert forall|j: int| 0 <= j < i implies (#[trigger] s[j]).0@ != s[i].0@ by {}
    lemma_first_key_index(s, s[i].0@, i);
}

proof fn lemma_sorted_insert<V>(s: Seq<(String, V)>, p: int, e: (String, V))
    requires
        sorted_entries(s),
        0 <= p <= s.len(),
        forall|a: int| 0 <= a < p ==> key_before((#[trigger] s[a]).0@, e.0@),
        forall|a: int| p <= a < s.len() ==> key_before(e.0@, (#[trigger] s[a]).0@),
    ensures
        sorted_entries(s.insert(p, e)),
{
    let t = s.insert(p, e);
    assert forall|i: int, j: int| 0 <= i < j < t.len() implies key_before(
        (#[trigger] t[i]).0@,
        (#[trigger] t[j]).0@,
    ) by {
        if i < p && j < p {
            assert(t[i] == s[i] && t[j] == s[j]);
        } else if i < p && j == p {
            assert(t[i] == s[i] && t[j] == e);
        } else if i < p {
            assert(t[i] == s[i] && t[j] == s[j - 1]);
        } else if i == p {
            assert(t[i] == e && t[j] == s[j - 1]);
        } else {
            assert(t[i] == s[i - 1] && t[j] == s[j - 1]);
        }
    }
}

proof fn lemma_insert_get<V>(s: Seq<(String, V)>, p: int, e: (String, V), k: Seq<char>)
    requires
        sorted_entries(s),
        sorted_entries(s.insert(p, e)),
        0 <= p <= s.len(),
        k != e.0@,
    ensures
        match first_key_index(s.insert(p, e), k) {
            Some(i) => first_key_index(s, k) matches Some(j) && s.insert(p, e)[i] == s[j],
            None => first_key_index(s, k) is None,
        },
{
    let t = s.insert(p, e);
    lemma_first_key_index_props(s, k);
    lemma_first_key_index_props(t, k);
    match first_key_index(s, k) {
        Some(j) => {
            let i = if j < p { j } else { j + 1 };
            assert(t[i] == s[j]);
            lemma_unique_index(t, i);
        },
        None => {
            if let Some(i) = first_key_index(t, k) {
                if i < p {
                    assert(t[i] == s[i]);
                } else if i > p {
                    assert(t[i] == s[i - 1]);
                }
            }
        },
    }
}

/// Position of the first entry whose key is `k`, if any.
pub open spec fn first_key_index<V>(s: Seq<(String, V)>, k: Seq<char>) -> Option<int> {
    if exists|i: int| 0 <= i < s.len() && (#[trigger] s[i]).0@ == k {
        Some(
            choose|i: int|
                0 <= i < s.len() && (#[trigger] s[i]).0@ == k && forall|j: int|
                    0 <= j < i ==> (#[trigger] s[j]).0@ != k,
        )
    } else {
        None
    }
}

pub proof fn lemma_first_key_index<V>(s: Seq<(String, V)>, k: Seq<char>, i: int)
    requires
        0 <= i < s.len(),
        s[i].0@ == k,
        forall|j: int| 0 <= j < i ==> (#[trigger] s[j]).0@ != k,
    ensures
        first_key_index(s, k) == Some(i),
{
    let c = choose|c: int|
        0 <= c < s.len() && (#[trigger] s[c]).0@ == k && forall|j: int|
            0 <= j < c ==> (#[trigger] s[j]).0@ != k;
    assert(0 <= c < s.len() && s[c].0@ == k && forall|j: int| 0 <= j < c ==> (#[trigger] s[j]).0@ != k);
    if c < i {
        assert(s[c].0@ != k);
    }
    if i < c {
        assert(s[i].0@ != k);
    }
}

impl<V> OrderedMap<V> {
    #[verifier::type_invariant]
    spec fn entries_sorted(self) -> bool {
        sorted_entries(self.entries@)
    }

    /// The entries in key order.
    pub closed spec fn spec_entries(&self) -> Seq<(String, V)> {
        self.entries@
    }

    /// The entries run in increasing key order.
    pub open spec fn keys_sorted(&self) -> bool {
        sorted_entries(self.spec_entries())
    }

    /// No key occurs in two entries.
    pub open spec fn keys_unique(&self) -> bool {
        forall|i: int, j: int|
            0 <= i < j < self.spec_entries().len() ==> (#[trigger] self.spec_entries()[i]).0@
                != (#[trigger] self.spec_entries()[j]).0@
    }

    /// The value stored under key `k`.
    pub open spec fn spec_get(&self, k: Seq<char>) -> Option<V> {
        match first_key_index(self.spec_entries(), k) {
            Some(i) => Some(self.spec_entries()[i].1),
            None => None,
        }
    }

    pub fn new() -> (r: Self)
        ensures
            r.spec_entries().len() == 0,
            r.keys_sorted(),
            r.keys_unique(),
    {
        OrderedMap { entries: Vec::new() }
    }

    pub fn len(&self) -> (r: usize)
        ensures
            r == self.spec_entries().len(),
    {
        self.entries.len()
    }

    pub fn is_empty(&self) -> (r: bool)
        ensures
            r == (self.spec_entries().len() == 0),
    {
        self.entries.len() == 0
    }

    /// The key and value at position `i`.
    pub fn entry(&self, i: usize) -> (r: (&String, &V))
        requires
            i < self.spec_entries().len(),
        ensures
            *r.0 == self.spec_entries()[i as int].0,
            *r.1 == self.spec_entries()[i as int].1,
            self.keys_sorted(),
            self.keys_unique(),
    {
        proof {
            use_type_invariant(self);
            lemma_sorted_unique(self.entries@);
        }
        let e = &self.entries[i];
        (&e.0, &e.1)
    }

    /// Puts `value` at position `i` in place of the value there, which it
    /// returns; the key stays.
    pub fn replace_value(&mut self, i: usize, value: V) -> (r: V)
        requires
            i < old(self).spec_entries().len(),
        ensures
            r == old(self).spec_entries()[i as int].1,
            final(self).spec_entries() == old(self).spec_entries().update(
                i as int,
                (old(self).spec_entries()[i as int].0, value),
            ),
            final(self).keys_sorted(),
    {
        proof {
            use_type_invariant(&*self);
        }
        let ghost before = self.entries@;
        let mut entries: Vec<(String, V)> = Vec::new();
        std::mem::swap(&mut entries, &mut self.entries);
        let (key, previous) = entries.remove(i);
        entries.insert(i, (key, value));
        proof {
            assert(entries@ =~= before.update(i as int, (before[i as int].0, value)));
            assert forall|a: int, b: int| 0 <= a < b < entries@.len() implies key_before(
                (#[trigger] entries@[a]).0@,
                (#[trigger] entries@[b]).0@,
            ) by {
                assert(entries@[a].0@ == before[a].0@ && entries@[b].0@ == before[b].0@);
            }
        }
        self.entries = entries;
        previous
    }

    /// Position of the entry for `key`.
    pub fn position(&self, key: &str) -> (r: Option<usize>)
        ensures
            r is Some <==> first_key_index(self.spec_entries(), key@) is Some,
            r matches Some(i) ==> first_key_index(self.spec_entries(), key@) == Some(i as int)
                && i < self.spec_entries().len(),
    {
        let mut i: usize = 0;
        while i < self.entries.len()
            invariant
                i <= self.entries@.len(),
                forall|j: int| 0 <= j < i ==> (#[trigger] self.entries@[j]).0@ != key@,
            decreases self.entries@.len() - i,
        {
            if str_eq(self.entries[i].0.as_str(), key) {
                proof {
                    lemma_first_key_index(self.entries@, key@, i as int);
                }
                return Some(i);
            }
            i += 1;
        }
        None
    }

    /// The value stored under `key`.
    pub fn get(&self, key: &str) -> (r: Option<&V>)
        ensures
            r is Some <==> self.spec_get(key@) is Some,
            r matches Some(v) ==> *v == self.spec_get(key@)->0,
    {
        match self.position(key) {
            Some(i) => Some(&self.entries[i].1),
            None => None,
        }
    }

    /// Stores `value` under `key`, replacing an earlier value for the key;
    /// a new key takes its place in key order.
    pub fn insert(&mut self, key: String, value: V)
        ensures
            final(self).spec_get(key@) == Some(value),
            forall|other: Seq<char>|
                other != key@ ==> #[trigger] final(self).spec_get(other) == old(self).spec_get(
                    other,
                ),
            final(self).keys_sorted(),
            final(self).keys_unique(),
    {
        proof {
            use_type_invariant(&*self);
        }
        let ghost k = key@;
        let ghost before = self.entries@;
        let mut p: usize = 0;
        while p < self.entries.len() && bytes_lt(
            self.entries[p].0.as_str().as_bytes(),
            key.as_str().as_bytes(),
        )
            invariant
                before == self.entries@,
                k == key@,
                sorted_entries(before),
                p <= before.len(),
                forall|a: int| 0 <= a < p ==> key_before((#[trigger] before[a]).0@, k),
            decreases before.len() - p,
        {
            p += 1;
        }
        proof {
            lemma_sorted_unique(before);
        }
        if p < self.entries.len() && str_eq(self.entries[p].0.as_str(), key.as_str()) {
            proof {
                let e = (key, value);
                assert(sorted_entries(before.update(p as int, e))) by {
                    assert forall|i: int, j: int| 0 <= i < j < before.len() implies key_before(
                        (#[trigger] before.update(p as int, e)[i]).0@,
                        (#[trigger] before.update(p as int, e)[j]).0@,
                    ) by {
                        assert(before.update(p as int, e)[i].0@ == before[i].0@);
                        assert(before.update(p as int, e)[j].0@ == before[j].0@);
                    }
                }
            }
            let mut entries: Vec<(String, V)> = Vec::new();
            std::mem::swap(&mut entries, &mut self.entries);
            entries.set(p, (key, value));
            self.entries = entries;
            proof {
                let t = self.entries@;
                lemma_unique_index(t, p as int);
                assert forall|other: Seq<char>| other != k implies #[trigger] self.spec_get(other)
                    == old(self).spec_get(other) by {
                    lemma_same_key_index(before, t, other);
                    lemma_first_key_index_props(before, other);
                }
            }
        } else {
            proof {
                let e = (key, value);
                assert forall|a: int| p <= a < before.len() implies key_before(
                    k,
                    (#[trigger] before[a]).0@,
                ) by {
                    lemma_key_order(before[p as int].0@, k);
                    if a > p {
                        lemma_lex_transitive(utf8(k), utf8(before[p as int].0@), utf8(before[a].0@));
                    }
                }
                lemma_sorted_insert(before, p as int, e);
            }
            let mut entries: Vec<(String, V)> = Vec::new();
            std::mem::swap(&mut entries, &mut self.entries);
            entries.insert(p, (key, value));
            self.entries = entries;
            proof {
                let t = self.entries@;
                lemma_unique_index(t, p as int);
                assert forall|other: Seq<char>| other != k implies #[trigger] self.spec_get(other)
                    == old(self).spec_get(other) by {
                    lemma_insert_get(before, p as int, t[p as int], other);
                }
            }
        }
        proof {
            lemma_sorted_unique(self.entries@);
        }
    }
}

/// Entries that keep every key of `before` in place, and add only other
/// keys after them, find a key at the same position.
proof fn lemma_same_key_index<V>(before: Seq<(String, V)>, after: Seq<(String, V)>, k: Seq<char>)
    requires
        before.len() <= after.len(),
        forall|j: int| 0 <= j < before.len() ==> (#[trigger] after[j]).0@ == before[j].0@,
        forall|j: int| before.len() <= j < after.len() ==> (#[trigger] after[j]).0@ != k,
    ensures
        first_key_index(after, k) == first_key_index(before, k),
{
    lemma_first_key_index_props(before, k);
    lemma_first_key_index_props(after, k);
    match first_key_index(before, k) {
        Some(i) => {
            assert forall|j: int| 0 <= j < i implies (#[trigger] after[j]).0@ != k by {
                assert(before[j].0@ != k);
            }
            lemma_first_key_index(after, k, i);
        },
        None => {
            if let Some(j) = first_key_index(after, k) {
                if j < before.len() {
                    assert(before[j].0@ == k);
                }
            }
        },
    }
}

pub proof fn lemma_first_key_index_props<V>(s: Seq<(String, V)>, k: Seq<char>)
    ensures
        match first_key_index(s, k) {
            Some(i) => 0 <= i < s.len() && s[i].0@ == k && forall|j: int|
                0 <= j < i ==> (#[trigger] s[j]).0@ != k,
            None => forall|j: int| 0 <= j < s.len() ==> (#[trigger] s[j]).0@ != k,
        },
{
    if exists|i: int| 0 <= i < s.len() && (#[trigger] s[i]).0@ == k {
        let w = choose|i: int| 0 <= i < s.len() && (#[trigger] s[i]).0@ == k;
        lemma_least_key_index(s, k, w);
    }
}

proof fn lemma_least_key_index<V>(s: Seq<(String, V)>, k: Seq<char>, w: int)
    requires
        0 <= w < s.len(),
        s[w].0@ == k,
    ensures
        exists|i: int|
            0 <= i < s.len() && (#[trigger] s[i]).0@ == k && forall|j: int|
                0 <= j < i ==> (#[trigger] s[j]).0@ != k,
    decreases w,
{
    if exists|j: int| 0 <= j < w && (#[trigger] s[j]).0@ == k {
        let j = choose|j: int| 0 <= j < w && (#[trigger] s[j]).0@ == k;
        lemma_least_key_index(s, k, j);
    } else {
        assert(forall|j: int| 0 <= j < w ==> (#[trigger] s[j]).0@ != k);
    }
}

} // verus!
