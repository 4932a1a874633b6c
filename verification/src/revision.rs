//! Durable configuration revisions: identifiers, integrity records, the
//! activation journal's state machine, and retention.

use vstd::prelude::*;
use vstd::string::StringExecFns;
use crate::text::{utf8, str_eq, ascii_string, is_digit, byte_is_digit, lower_hex, hex};
use crate::route::lemma_utf8_concat;

verus! {

/// Most revisions a state directory holds.
pub const MAX_REVISIONS: usize = 1_000;

/// The newest revisions, which retention never removes.
pub const RETAIN_RECENT_REVISIONS: usize = 70;

/// Revisions younger than this are never removed.
pub const MIN_RETENTION_SECS: u64 = 2_592_000;

/// Longest revision source label, in bytes.
pub const MAX_SOURCE_BYTES: usize = 128;

/// Version of the pointer and journal formats.
pub const STATE_SCHEMA_VERSION: u32 = 1;

/// Durable immutable revision metadata.
#[derive(Clone, Debug)]
pub struct RevisionMetadata {
    /// Stable sequence-and-hash revision identifier.
    pub id: String,
    /// Monotonic sequence within one state directory.
    pub sequence: u64,
    /// Lowercase SHA-256 of canonical TOML bytes.
    pub hash: String,
    /// Candidate creation time as Unix seconds.
    pub created_unix_secs: u64,
    /// Bounded operator or provider source label.
    pub source: String,
}

/// Integrity-bound reference to an immutable revision.
#[derive(Clone, Debug)]
pub struct RevisionTarget {
    /// Immutable revision identifier.
    pub id: String,
    /// Revision sequence copied from metadata.
    pub sequence: u64,
    /// Revision content hash copied from metadata.
    pub hash: String,
}

/// Durable current and immediately previous revision pointer.
#[derive(Clone, Debug)]
pub struct ActivePointer {
    /// Pointer format version.
    pub schema_version: u32,
    /// Revision selected for startup and request handling.
    pub active: RevisionTarget,
    /// Last committed revision retained for rollback.
    pub previous: Option<RevisionTarget>,
}

/// Durable activation state used for crash recovery.
#[derive(Clone, Copy, Debug, PartialEq, Eq, Structural)]
pub enum ActivationPhase {
    /// Intent is durable; pointer may or may not have switched.
    Intent,
    /// Runtime was published and is undergoing structural probation.
    Probation,
    /// Candidate completed probation.
    Committed,
    /// Previous revision was durably restored.
    RolledBack,
}

/// Single-writer activation journal.
#[derive(Clone, Debug)]
pub struct ActivationJournal {
    /// Journal format version.
    pub schema_version: u32,
    /// Candidate under activation.
    pub candidate: RevisionTarget,
    /// Revision to restore after an incomplete activation.
    pub previous: Option<RevisionTarget>,
    /// Current durable phase.
    pub phase: ActivationPhase,
    /// Journal creation time as Unix seconds.
    pub created_unix_secs: u64,
    /// Last durable transition time as Unix seconds.
    pub updated_unix_secs: u64,
}

/// Revision persistence failure.
#[derive(Debug)]
pub enum RevisionError {
    /// Another process owns this state directory.
    Locked,
    /// Candidate configuration is invalid.
    InvalidConfig(String),
    /// Revision or metadata serialization failed.
    Serialization(String),
    /// Stored revision failed integrity or schema checks.
    InvalidStored(String),
    /// Revision retention bound was reached.
    Limit,
    /// Compare-and-swap or journal state did not match.
    Conflict,
}

fn stored_error(message: &str) -> (r: RevisionError)
    ensures
        r matches RevisionError::InvalidStored(m) && m@ == message@,
{
    RevisionError::InvalidStored(String::from_str(message))
}

/// A Unicode control character (`char::is_control`).
pub open spec fn is_control_char(c: char) -> bool {
    (c as u32) < 0x20 || (0x7f <= (c as u32) && (c as u32) < 0xa0)
}

/// A source label: nonempty, at most the byte bound, no control
/// characters.
pub open spec fn source_ok(s: Seq<char>) -> bool {
    &&& s.len() > 0
    &&& utf8(s).len() <= MAX_SOURCE_BYTES
    &&& forall|i: int| 0 <= i < s.len() ==> !is_control_char(#[trigger] s[i])
}

/// Checks a revision source label.
pub fn validate_source(source: &str) -> (r: Result<(), RevisionError>)
    ensures
        r is Ok <==> source_ok(source@),
        r matches Err(e) ==> e is InvalidStored,
{
    let n = source.unicode_len();
    if n == 0 || source.as_bytes().len() > MAX_SOURCE_BYTES {
        return Err(
            stored_error("revision source is empty, oversized, or contains control characters"),
        );
    }
    let mut i: usize = 0;
    while i < n
        invariant
            i <= n,
            n == source@.len(),
            n > 0,
            utf8(source@).len() <= MAX_SOURCE_BYTES,
            forall|k: int| 0 <= k < i ==> !is_control_char(#[trigger] source@[k]),
        decreases n - i,
    {
        let c = source.get_char(i) as u32;
        if c < 0x20 || (0x7f <= c && c < 0xa0) {
            return Err(
                stored_error(
                    "revision source is empty, oversized, or contains control characters",
                ),
            );
        }
        i += 1;
    }
    Ok(())
}

pub open spec fn lower_hex_byte(b: u8) -> bool {
    is_digit(b) || (0x61 <= b <= 0x66)
}

/// A revision ID: twenty decimal digits, `-`, and sixty-four lowercase
/// hexadecimal digits.
pub open spec fn revision_id_ok(b: Seq<u8>) -> bool {
    &&& b.len() == 85
    &&& b[20] == 0x2d
    &&& forall|i: int| 0 <= i < 20 ==> is_digit(#[trigger] b[i])
    &&& forall|i: int| 21 <= i < 85 ==> lower_hex_byte(#[trigger] b[i])
}

/// Checks a revision ID.
pub fn validate_revision_id(id: &str) -> (r: Result<(), RevisionError>)
    ensures
        r is Ok <==> revision_id_ok(utf8(id@)),
        r matches Err(e) ==> e is InvalidStored,
{
    let b = id.as_bytes();
    if b.len() != 85 || b[20] != 0x2d {
        return Err(stored_error("invalid revision ID"));
    }
    let mut i: usize = 0;
    while i < 85
        invariant
            i <= 85,
            b@.len() == 85,
            b@ == utf8(id@),
            b@[20] == 0x2d,
            forall|k: int| 0 <= k < i && k < 20 ==> is_digit(#[trigger] b@[k]),
            forall|k: int| 21 <= k < i ==> lower_hex_byte(#[trigger] b@[k]),
        decreases 85 - i,
    {
        let c = b[i];
        if i < 20 {
            if !byte_is_digit(c) {
                return Err(stored_error("invalid revision ID"));
            }
        } else if i > 20 {
            if !(byte_is_digit(c) || (0x61 <= c && c <= 0x66)) {
                return Err(stored_error("invalid revision ID"));
            }
        }
        i += 1;
    }
    Ok(())
}

/// The SHA-256 digest of a byte string, as the `sha2` crate computes it.
pub uninterp spec fn sha256_digest(bytes: Seq<u8>) -> Seq<u8>;

/// Calls `sha2::Sha256::digest`; its output is the thirty-two byte digest.
#[verifier::external_body]
pub(crate) fn sha256(bytes: &[u8]) -> (r: Vec<u8>)
    ensures
        r@ == sha256_digest(bytes@),
        r@.len() == 32,
{
    <sha2::Sha256 as sha2::Digest>::digest(bytes).to_vec()
}

/// The lowercase hexadecimal SHA-256 of a byte string.
pub fn hex_sha256(bytes: &[u8]) -> (r: String)
    ensures
        utf8(r@) == lower_hex(sha256_digest(bytes@)),
{
    let digest = sha256(bytes);
    let out = hex(digest.as_slice());
    ascii_string(&out)
}

/// The lowest `w` decimal digits of `n`, zero-padded.
pub open spec fn padded_digits(n: nat, w: nat) -> Seq<u8>
    decreases w,
{
    if w == 0 {
        Seq::empty()
    } else {
        padded_digits(n / 10, (w - 1) as nat).push((0x30 + n % 10) as u8)
    }
}

fn pad_digits(n: u64, w: usize) -> (r: Vec<u8>)
    ensures
        r@ == padded_digits(n as nat, w as nat),
        forall|k: int| 0 <= k < r@.len() ==> #[trigger] r@[k] < 0x80,
    decreases w,
{
    if w == 0 {
        Vec::new()
    } else {
        let mut v = pad_digits(n / 10, w - 1);
        v.push(0x30 + (n % 10) as u8);
        v
    }
}

/// The identifier of a revision: its sequence as twenty zero-padded
/// digits, `-`, and its content hash.
pub open spec fn revision_id_bytes(sequence: u64, hash: Seq<char>) -> Seq<u8> {
    padded_digits(sequence as nat, 20) + seq![0x2du8] + utf8(hash)
}

/// Builds a revision identifier.
pub fn revision_id(sequence: u64, hash: &str) -> (r: String)
    ensures
        utf8(r@) == revision_id_bytes(sequence, hash@),
{
    let mut prefix = pad_digits(sequence, 20);
    prefix.push(0x2d);
    let mut id = ascii_string(&prefix);
    let ghost head = id@;
    id.append(hash);
    proof {
        lemma_utf8_concat(head, hash@);
        assert(prefix@ =~= padded_digits(sequence as nat, 20) + seq![0x2du8]);
    }
    id
}

/// Stored metadata names itself: its ID is the requested one and is built
/// from its sequence and a lowercase sixty-four digit hash; its source is a
/// valid label.
pub open spec fn metadata_ok(id: Seq<char>, m: RevisionMetadata) -> bool {
    &&& m.id@ == id
    &&& utf8(m.hash@).len() == 64
    &&& (forall|i: int| 0 <= i < 64 ==> lower_hex_byte(#[trigger] utf8(m.hash@)[i]))
    &&& utf8(id) == revision_id_bytes(m.sequence, m.hash@)
    &&& source_ok(m.source@)
}

/// Checks the identity of stored metadata read for `id`.
pub fn check_metadata(id: &str, metadata: &RevisionMetadata) -> (r: Result<(), RevisionError>)
    ensures
        r is Ok <==> metadata_ok(id@, *metadata),
        r matches Err(e) ==> e is InvalidStored,
{
    let hash = metadata.hash.as_str().as_bytes();
    if !str_eq(metadata.id.as_str(), id) || hash.len() != 64 {
        return Err(stored_error("revision metadata identity is inconsistent"));
    }
    let mut i: usize = 0;
    while i < 64
        invariant
            hash@ == utf8(metadata.hash@),
            metadata.id@ == id@,
            hash@.len() == 64,
            i <= 64,
            forall|k: int| 0 <= k < i ==> lower_hex_byte(#[trigger] hash@[k]),
        decreases 64 - i,
    {
        if !(byte_is_digit(hash[i]) || (0x61 <= hash[i] && hash[i] <= 0x66)) {
            assert(!lower_hex_byte(utf8(metadata.hash@)[i as int]));
            return Err(stored_error("revision metadata identity is inconsistent"));
        }
        i += 1;
    }
    let expected = revision_id(metadata.sequence, metadata.hash.as_str());
    if !str_eq(expected.as_str(), id) {
        proof {
            vstd::utf8::encode_utf8_decode_utf8(expected@);
            vstd::utf8::encode_utf8_decode_utf8(id@);
        }
        return Err(stored_error("revision metadata identity is inconsistent"));
    }
    validate_source(metadata.source.as_str())
}

/// What `str::parse::<u64>` gives for bytes: an optional `+`, then at
/// least one digit, within range.
pub open spec fn decimal_u64(t: Seq<u8>) -> Option<int> {
    let d = if t.len() > 0 && t[0] == 0x2b {
        t.subrange(1, t.len() as int)
    } else {
        t
    };
    if d.len() >= 1 && all_digits(d) && 0 <= digit_value(d) <= u64::MAX {
        Some(digit_value(d))
    } else {
        None
    }
}

/// Every byte is a decimal digit.
pub open spec fn all_digits(d: Seq<u8>) -> bool {
    forall|k: int| 0 <= k < d.len() ==> is_digit(#[trigger] d[k])
}

/// The value of decimal digit bytes.
pub open spec fn digit_value(d: Seq<u8>) -> int
    decreases d.len(),
{
    if d.len() == 0 {
        0
    } else {
        10 * digit_value(d.drop_last()) + (d.last() - 0x30)
    }
}

proof fn lemma_digit_value_mono(d: Seq<u8>, k: int)
    requires
        0 <= k <= d.len(),
        forall|i: int| 0 <= i < d.len() ==> is_digit(#[trigger] d[i]),
    ensures
        0 <= digit_value(d.take(k)) <= digit_value(d),
    decreases d.len() - k,
{
    if k < d.len() {
        lemma_digit_value_mono(d, k + 1);
        assert(d.take(k + 1).drop_last() =~= d.take(k));
        assert(is_digit(d[k]));
    } else {
        assert(d.take(k) =~= d);
        lemma_digit_value_nonneg(d);
    }
}

proof fn lemma_digit_value_nonneg(d: Seq<u8>)
    requires
        forall|i: int| 0 <= i < d.len() ==> is_digit(#[trigger] d[i]),
    ensures
        0 <= digit_value(d),
    decreases d.len(),
{
    if d.len() > 0 {
        assert(is_digit(d[d.len() - 1]));
        lemma_digit_value_nonneg(d.drop_last());
    }
}

/// Parses bytes as `str::parse::<u64>` does.
fn parse_u64(t: &[u8]) -> (r: Option<u64>)
    ensures
        match decimal_u64(t@) {
            Some(n) => r == Some(n as u64),
            None => r is None,
        },
{
    let start: usize = if t.len() > 0 && t[0] == 0x2b {
        1
    } else {
        0
    };
    let ghost d = t@.subrange(start as int, t@.len() as int);
    assert(d =~= if t@.len() > 0 && t@[0] == 0x2b {
        t@.subrange(1, t@.len() as int)
    } else {
        t@
    });
    if start >= t.len() {
        return None;
    }
    let mut value: u64 = 0;
    let mut k = start;
    while k < t.len()
        invariant
            start <= k <= t@.len(),
            d == t@.subrange(start as int, t@.len() as int),
            d == if t@.len() > 0 && t@[0] == 0x2b {
                t@.subrange(1, t@.len() as int)
            } else {
                t@
            },
            forall|i: int| 0 <= i < k - start ==> is_digit(#[trigger] d[i]),
            value == digit_value(d.take(k - start)),
        decreases t@.len() - k,
    {
        let b = t[k];
        if !byte_is_digit(b) {
            proof {
                assert(!is_digit(d[k - start]));
                let dd = if t@.len() > 0 && t@[0] == 0x2b {
                    t@.subrange(1, t@.len() as int)
                } else {
                    t@
                };
                assert(dd == d);
                assert(!all_digits(dd));
            }
            return None;
        }
        proof {
            assert(d.take(k - start + 1).drop_last() =~= d.take(k - start));
            assert(d[k - start] == b);
        }
        let next = match value.checked_mul(10) {
            None => None,
            Some(m) => m.checked_add((b - 0x30) as u64),
        };
        match next {
            None => {
                proof {
                    assert(digit_value(d.take(k - start + 1)) > u64::MAX);
                    if all_digits(d) {
                        lemma_digit_value_mono(d, k - start + 1);
                    }
                    let dd = if t@.len() > 0 && t@[0] == 0x2b {
                        t@.subrange(1, t@.len() as int)
                    } else {
                        t@
                    };
                    assert(dd == d);
                }
                return None;
            },
            Some(v) => {
                value = v;
            },
        }
        k += 1;
    }
    proof {
        assert(d.take(d.len() as int) =~= d);
        lemma_digit_value_nonneg(d);
    }
    Some(value)
}

/// The sequence a revision file name starts with: its first twenty bytes,
/// parsed as a number.
pub open spec fn name_sequence(b: Seq<u8>) -> Option<int> {
    if b.len() >= 20 {
        decimal_u64(b.take(20))
    } else {
        None
    }
}

/// The next free sequence: one above the largest sequence any name starts
/// with (saturating), and at least one.
pub open spec fn next_sequence_spec(names: Seq<String>) -> int
    decreases names.len(),
{
    if names.len() == 0 {
        1
    } else {
        let prev = next_sequence_spec(names.drop_last());
        match name_sequence(utf8(names.last()@)) {
            Some(s) => {
                let candidate = if s + 1 > u64::MAX {
                    u64::MAX as int
                } else {
                    s + 1
                };
                if candidate > prev {
                    candidate
                } else {
                    prev
                }
            },
            None => prev,
        }
    }
}

/// The next free revision sequence among the stored file names.
pub fn next_sequence(names: &Vec<String>) -> (r: u64)
    ensures
        r == next_sequence_spec(names@),
{
    let mut next: u64 = 1;
    let mut i: usize = 0;
    while i < names.len()
        invariant
            i <= names@.len(),
            next == next_sequence_spec(names@.take(i as int)),
        decreases names@.len() - i,
    {
        proof {
            assert(names@.take(i + 1).drop_last() =~= names@.take(i as int));
        }
        let b = names[i].as_str().as_bytes();
        if b.len() >= 20 {
            let head = slice_prefix(b, 20);
            match parse_u64(head.as_slice()) {
                Some(s) => {
                    let candidate = s.saturating_add(1);
                    if candidate > next {
                        next = candidate;
                    }
                },
                None => {},
            }
        }
        i += 1;
    }
    proof {
        assert(names@.take(names@.len() as int) =~= names@);
    }
    next
}

fn slice_prefix(b: &[u8], n: usize) -> (r: Vec<u8>)
    requires
        n <= b@.len(),
    ensures
        r@ == b@.take(n as int),
{
    let mut r: Vec<u8> = Vec::new();
    let mut k: usize = 0;
    while k < n
        invariant
            k <= n <= b@.len(),
            r@ == b@.take(k as int),
        decreases n - k,
    {
        r.push(b[k]);
        proof {
            assert(r@ =~= b@.take(k + 1));
        }
        k += 1;
    }
    r
}

/// Two targets name the same revision.
pub open spec fn same_target(a: RevisionTarget, b: RevisionTarget) -> bool {
    a.id@ == b.id@ && a.sequence == b.sequence && a.hash@ == b.hash@
}

fn targets_equal(a: &RevisionTarget, b: &RevisionTarget) -> (r: bool)
    ensures
        r == same_target(*a, *b),
{
    str_eq(a.id.as_str(), b.id.as_str()) && a.sequence == b.sequence && str_eq(
        a.hash.as_str(),
        b.hash.as_str(),
    )
}

fn copy_target(t: &RevisionTarget) -> (r: RevisionTarget)
    ensures
        r == *t,
{
    RevisionTarget { id: t.id.clone(), sequence: t.sequence, hash: t.hash.clone() }
}

fn copy_opt_target(t: &Option<RevisionTarget>) -> (r: Option<RevisionTarget>)
    ensures
        r == *t,
{
    match t {
        Some(x) => Some(copy_target(x)),
        None => None,
    }
}

/// A pointer's format version is current and it does not name one
/// revision as both active and previous.
pub open spec fn pointer_shape_ok(p: ActivePointer) -> bool {
    &&& p.schema_version == STATE_SCHEMA_VERSION
    &&& !(p.previous matches Some(x) && same_target(x, p.active))
}

/// Checks the shape of an active pointer before its revisions are checked.
pub fn check_pointer_shape(pointer: &ActivePointer) -> (r: Result<(), RevisionError>)
    ensures
        r is Ok <==> pointer_shape_ok(*pointer),
        r matches Err(e) ==> e is InvalidStored,
{
    let twice = match &pointer.previous {
        Some(x) => targets_equal(x, &pointer.active),
        None => false,
    };
    if pointer.schema_version != STATE_SCHEMA_VERSION || twice {
        return Err(stored_error("active pointer schema or references are invalid"));
    }
    Ok(())
}

/// A journal's format version is current, its times are ordered, and it
/// does not name one revision as both candidate and previous.
pub open spec fn journal_shape_ok(j: ActivationJournal) -> bool {
    &&& j.schema_version == STATE_SCHEMA_VERSION
    &&& j.updated_unix_secs >= j.created_unix_secs
    &&& !(j.previous matches Some(x) && same_target(x, j.candidate))
}

/// Checks the shape of an activation journal before its revisions are
/// checked.
pub fn check_journal_shape(journal: &ActivationJournal) -> (r: Result<(), RevisionError>)
    ensures
        r is Ok <==> journal_shape_ok(*journal),
        r matches Err(e) ==> e is InvalidStored,
{
    let twice = match &journal.previous {
        Some(x) => targets_equal(x, &journal.candidate),
        None => false,
    };
    if journal.schema_version != STATE_SCHEMA_VERSION || journal.updated_unix_secs
        < journal.created_unix_secs || twice {
        return Err(stored_error("activation journal schema or references are invalid"));
    }
    Ok(())
}

/// The journal and pointer an activation starts with, or `None` when the
/// active revision is not the expected one.
pub open spec fn begin_spec(
    candidate: RevisionTarget,
    current: Option<ActivePointer>,
    expected_active: Option<Seq<char>>,
    now: u64,
) -> Option<(ActivationJournal, ActivePointer)> {
    let current_id: Option<Seq<char>> = match current {
        Some(p) => Some(p.active.id@),
        None => None,
    };
    if current_id != expected_active {
        None
    } else {
        let previous = match current {
            Some(p) => Some(p.active),
            None => None,
        };
        Some(
            (
                ActivationJournal {
                    schema_version: STATE_SCHEMA_VERSION,
                    candidate,
                    previous,
                    phase: ActivationPhase::Intent,
                    created_unix_secs: now,
                    updated_unix_secs: now,
                },
                ActivePointer { schema_version: STATE_SCHEMA_VERSION, active: candidate, previous },
            ),
        )
    }
}

/// Plans the start of an activation: an intent journal and the switched
/// pointer, refused unless the active revision is `expected_active`
/// (compare and swap).
pub fn begin_activation(
    candidate: &RevisionTarget,
    current: &Option<ActivePointer>,
    expected_active: Option<&str>,
    now: u64,
) -> (r: Result<(ActivationJournal, ActivePointer), RevisionError>)
    ensures
        match begin_spec(
            *candidate,
            *current,
            match expected_active {
                Some(e) => Some(e@),
                None => None,
            },
            now,
        ) {
            None => r matches Err(RevisionError::Conflict),
            Some(plan) => r matches Ok(got) && got == plan,
        },
{
    let matches = match (current, expected_active) {
        (Some(p), Some(e)) => str_eq(p.active.id.as_str(), e),
        (None, None) => true,
        _ => false,
    };
    if !matches {
        return Err(RevisionError::Conflict);
    }
    let previous = match current {
        Some(p) => Some(copy_target(&p.active)),
        None => None,
    };
    let journal = ActivationJournal {
        schema_version: STATE_SCHEMA_VERSION,
        candidate: copy_target(candidate),
        previous: copy_opt_target(&previous),
        phase: ActivationPhase::Intent,
        created_unix_secs: now,
        updated_unix_secs: now,
    };
    let pointer = ActivePointer {
        schema_version: STATE_SCHEMA_VERSION,
        active: copy_target(candidate),
        previous,
    };
    Ok((journal, pointer))
}

/// The journal after a phase transition, or `None` when there is no
/// journal, it is for another candidate or in another phase, or the
/// active pointer does not name the candidate.
pub open spec fn transition_spec(
    journal: Option<ActivationJournal>,
    pointer: Option<ActivePointer>,
    candidate_id: Seq<char>,
    from: ActivationPhase,
    to: ActivationPhase,
    now: u64,
) -> Option<ActivationJournal> {
    match (journal, pointer) {
        (Some(j), Some(p)) => if j.candidate.id@ == candidate_id && j.phase == from && same_target(
            p.active,
            j.candidate,
        ) {
            Some(ActivationJournal { phase: to, updated_unix_secs: now, ..j })
        } else {
            None
        },
        _ => None,
    }
}

/// Moves the journal of a candidate from one phase to the next.
pub fn transition_journal(
    journal: Option<ActivationJournal>,
    pointer: &Option<ActivePointer>,
    candidate_id: &str,
    from: ActivationPhase,
    to: ActivationPhase,
    now: u64,
) -> (r: Result<ActivationJournal, RevisionError>)
    ensures
        match transition_spec(journal, *pointer, candidate_id@, from, to, now) {
            None => r matches Err(RevisionError::Conflict),
            Some(j) => r matches Ok(got) && got == j,
        },
{
    let mut j = match journal {
        None => {
            return Err(RevisionError::Conflict);
        },
        Some(j) => j,
    };
    if !str_eq(j.candidate.id.as_str(), candidate_id) || j.phase != from {
        return Err(RevisionError::Conflict);
    }
    match pointer {
        None => {
            return Err(RevisionError::Conflict);
        },
        Some(p) => {
            if !targets_equal(&p.active, &j.candidate) {
                return Err(RevisionError::Conflict);
            }
        },
    }
    j.phase = to;
    j.updated_unix_secs = now;
    Ok(j)
}

/// Marks a published candidate as undergoing probation.
pub fn mark_probation(
    journal: Option<ActivationJournal>,
    pointer: &Option<ActivePointer>,
    candidate_id: &str,
    now: u64,
) -> (r: Result<ActivationJournal, RevisionError>)
    ensures
        match transition_spec(
            journal,
            *pointer,
            candidate_id@,
            ActivationPhase::Intent,
            ActivationPhase::Probation,
            now,
        ) {
            None => r matches Err(RevisionError::Conflict),
            Some(j) => r matches Ok(got) && got == j,
        },
{
    transition_journal(
        journal,
        pointer,
        candidate_id,
        ActivationPhase::Intent,
        ActivationPhase::Probation,
        now,
    )
}

/// Marks a candidate as committed after probation.
pub fn commit_activation(
    journal: Option<ActivationJournal>,
    pointer: &Option<ActivePointer>,
    candidate_id: &str,
    now: u64,
) -> (r: Result<ActivationJournal, RevisionError>)
    ensures
        match transition_spec(
            journal,
            *pointer,
            candidate_id@,
            ActivationPhase::Probation,
            ActivationPhase::Committed,
            now,
        ) {
            None => r matches Err(RevisionError::Conflict),
            Some(j) => r matches Ok(got) && got == j,
        },
{
    transition_journal(
        journal,
        pointer,
        candidate_id,
        ActivationPhase::Probation,
        ActivationPhase::Committed,
        now,
    )
}

/// An activation may still be rolled back.
pub open spec fn incomplete(phase: ActivationPhase) -> bool {
    phase == ActivationPhase::Intent || phase == ActivationPhase::Probation
}

/// The rolled-back journal and the restored pointer (`None`: no revision
/// is active), or `None` when the journal is not an incomplete activation
/// of the candidate.
pub open spec fn rollback_spec(journal: Option<ActivationJournal>, candidate_id: Seq<char>, now: u64) -> Option<
    (ActivationJournal, Option<ActivePointer>),
> {
    match journal {
        Some(j) => if j.candidate.id@ == candidate_id && incomplete(j.phase) {
            let restored = match j.previous {
                Some(p) => Some(
                    ActivePointer { schema_version: STATE_SCHEMA_VERSION, active: p, previous: None },
                ),
                None => None,
            };
            Some(
                (
                    ActivationJournal {
                        phase: ActivationPhase::RolledBack,
                        updated_unix_secs: now,
                        ..j
                    },
                    restored,
                ),
            )
        } else {
            None
        },
        None => None,
    }
}

/// Plans a rollback: the previous revision becomes active again (with no
/// previous of its own), or no revision is active when there was none.
pub fn rollback_activation(journal: Option<ActivationJournal>, candidate_id: &str, now: u64) -> (r:
    Result<(ActivationJournal, Option<ActivePointer>), RevisionError>)
    ensures
        match rollback_spec(journal, candidate_id@, now) {
            None => r matches Err(RevisionError::Conflict),
            Some(plan) => r matches Ok(got) && got == plan,
        },
{
    let mut j = match journal {
        None => {
            return Err(RevisionError::Conflict);
        },
        Some(j) => j,
    };
    if !str_eq(j.candidate.id.as_str(), candidate_id) || !(j.phase == ActivationPhase::Intent
        || j.phase == ActivationPhase::Probation) {
        return Err(RevisionError::Conflict);
    }
    let restored = match &j.previous {
        Some(p) => Some(
            ActivePointer {
                schema_version: STATE_SCHEMA_VERSION,
                active: copy_target(p),
                previous: None,
            },
        ),
        None => None,
    };
    j.phase = ActivationPhase::RolledBack;
    j.updated_unix_secs = now;
    Ok((j, restored))
}

/// The candidate a restart must roll back: the one of an incomplete
/// activation.
pub fn recovery_candidate(journal: &Option<ActivationJournal>) -> (r: Option<String>)
    ensures
        match *journal {
            Some(j) => if incomplete(j.phase) {
                r == Some(j.candidate.id)
            } else {
                r is None
            },
            None => r is None,
        },
{
    match journal {
        Some(j) => {
            if j.phase == ActivationPhase::Intent || j.phase == ActivationPhase::Probation {
                Some(j.candidate.id.clone())
            } else {
                None
            }
        },
        None => None,
    }
}

/// Rolling back an activation right after it began makes the revision that
/// was active before it active again, or leaves no revision active when
/// there was none.
pub proof fn lemma_rollback_restores_previous(
    candidate: RevisionTarget,
    current: Option<ActivePointer>,
    expected_active: Option<Seq<char>>,
    began: u64,
    rolled: u64,
)
    requires
        begin_spec(candidate, current, expected_active, began) is Some,
    ensures
        ({
            let (journal, _) = begin_spec(candidate, current, expected_active, began)->0;
            let (_, restored) = rollback_spec(Some(journal), candidate.id@, rolled)->0;
            &&& rollback_spec(Some(journal), candidate.id@, rolled) is Some
            &&& match current {
                Some(p) => restored == Some(
                    ActivePointer {
                        schema_version: STATE_SCHEMA_VERSION,
                        active: p.active,
                        previous: None,
                    },
                ),
                None => restored is None,
            }
        }),
{
}

/// Activation is a compare and swap: it starts exactly when the active
/// revision is the expected one.
pub proof fn lemma_begin_is_compare_and_swap(
    candidate: RevisionTarget,
    current: Option<ActivePointer>,
    expected_active: Option<Seq<char>>,
    now: u64,
)
    ensures
        begin_spec(candidate, current, expected_active, now) is Some <==> match current {
            Some(p) => expected_active == Some(p.active.id@),
            None => expected_active is None,
        },
{
}

/// Phases only move forward: probation follows intent, commit follows
/// probation, and a committed or rolled-back activation is final.
pub proof fn lemma_phase_order(
    journal: ActivationJournal,
    pointer: Option<ActivePointer>,
    candidate_id: Seq<char>,
    now: u64,
)
    ensures
        transition_spec(
            Some(journal),
            pointer,
            candidate_id,
            ActivationPhase::Intent,
            ActivationPhase::Probation,
            now,
        ) is Some ==> journal.phase == ActivationPhase::Intent,
        transition_spec(
            Some(journal),
            pointer,
            candidate_id,
            ActivationPhase::Probation,
            ActivationPhase::Committed,
            now,
        ) is Some ==> journal.phase == ActivationPhase::Probation,
        !incomplete(journal.phase) ==> rollback_spec(Some(journal), candidate_id, now) is None,
{
}

/// A revision that the pointer or the journal names, which retention keeps.
pub open spec fn is_protected(
    pointer: Option<ActivePointer>,
    journal: Option<ActivationJournal>,
    id: Seq<char>,
) -> bool {
    ||| (pointer matches Some(p) && p.active.id@ == id)
    ||| (pointer matches Some(p) && (p.previous matches Some(x) && x.id@ == id))
    ||| (journal matches Some(j) && j.candidate.id@ == id)
    ||| (journal matches Some(j) && (j.previous matches Some(x) && x.id@ == id))
}

/// Creation times at or before this are old enough to remove.
pub open spec fn retention_cutoff(now: u64) -> int {
    if now >= MIN_RETENTION_SECS {
        now - MIN_RETENTION_SECS
    } else {
        0
    }
}

/// Positions below `n` that may be removed: old enough and not protected.
pub open spec fn prune_upto(
    revs: Seq<RevisionMetadata>,
    pointer: Option<ActivePointer>,
    journal: Option<ActivationJournal>,
    now: u64,
    n: int,
) -> Seq<usize>
    decreases n,
{
    if n <= 0 {
        Seq::empty()
    } else {
        let prev = prune_upto(revs, pointer, journal, now, n - 1);
        let r = revs[n - 1];
        if r.created_unix_secs > retention_cutoff(now) || is_protected(pointer, journal, r.id@) {
            prev
        } else {
            prev.push((n - 1) as usize)
        }
    }
}

/// The revisions (positions in sequence order) retention removes: none
/// while at most the recent bound exist; otherwise, among all but the most
/// recent ones, those old enough and not protected.
pub open spec fn prune_spec(
    revs: Seq<RevisionMetadata>,
    pointer: Option<ActivePointer>,
    journal: Option<ActivationJournal>,
    now: u64,
) -> Seq<usize> {
    if revs.len() <= RETAIN_RECENT_REVISIONS {
        Seq::empty()
    } else {
        prune_upto(revs, pointer, journal, now, revs.len() - RETAIN_RECENT_REVISIONS)
    }
}

fn protected_id(
    pointer: &Option<ActivePointer>,
    journal: &Option<ActivationJournal>,
    id: &str,
) -> (r: bool)
    ensures
        r == is_protected(*pointer, *journal, id@),
{
    let mut hit = false;
    match pointer {
        Some(p) => {
            if str_eq(p.active.id.as_str(), id) {
                hit = true;
            }
            match &p.previous {
                Some(x) => {
                    if str_eq(x.id.as_str(), id) {
                        hit = true;
                    }
                },
                None => {},
            }
        },
        None => {},
    }
    match journal {
        Some(j) => {
            if str_eq(j.candidate.id.as_str(), id) {
                hit = true;
            }
            match &j.previous {
                Some(x) => {
                    if str_eq(x.id.as_str(), id) {
                        hit = true;
                    }
                },
                None => {},
            }
        },
        None => {},
    }
    hit
}

/// The positions of the revisions retention removes.
pub fn prune_selection(
    revisions: &Vec<RevisionMetadata>,
    pointer: &Option<ActivePointer>,
    journal: &Option<ActivationJournal>,
    now: u64,
) -> (r: Vec<usize>)
    ensures
        r@ == prune_spec(revisions@, *pointer, *journal, now),
{
    let mut out: Vec<usize> = Vec::new();
    if revisions.len() <= RETAIN_RECENT_REVISIONS {
        return out;
    }
    let cutoff = now.saturating_sub(MIN_RETENTION_SECS);
    let limit = revisions.len() - RETAIN_RECENT_REVISIONS;
    let mut i: usize = 0;
    while i < limit
        invariant
            i <= limit,
            limit == revisions@.len() - RETAIN_RECENT_REVISIONS,
            cutoff == retention_cutoff(now),
            out@ == prune_upto(revisions@, *pointer, *journal, now, i as int),
        decreases limit - i,
    {
        let r = &revisions[i];
        if !(r.created_unix_secs > cutoff || protected_id(pointer, journal, r.id.as_str())) {
            out.push(i);
        }
        i += 1;
    }
    out
}

/// Retention removes only revisions outside the most recent ones, old
/// enough, and named by neither the pointer nor the journal.
pub proof fn lemma_prune_keeps_protected(
    revs: Seq<RevisionMetadata>,
    pointer: Option<ActivePointer>,
    journal: Option<ActivationJournal>,
    now: u64,
    n: int,
)
    requires
        0 <= n <= revs.len(),
        revs.len() <= usize::MAX,
    ensures
        forall|k: int|
            0 <= k < prune_upto(revs, pointer, journal, now, n).len() ==> {
                let i = #[trigger] prune_upto(revs, pointer, journal, now, n)[k] as int;
                &&& 0 <= i < n
                &&& revs[i].created_unix_secs <= retention_cutoff(now)
                &&& !is_protected(pointer, journal, revs[i].id@)
            },
    decreases n,
{
    if n > 0 {
        lemma_prune_keeps_protected(revs, pointer, journal, now, n - 1);
        let prev = prune_upto(revs, pointer, journal, now, n - 1);
        let cur = prune_upto(revs, pointer, journal, now, n);
        assert forall|k: int| 0 <= k < cur.len() implies {
            let i = #[trigger] cur[k] as int;
            &&& 0 <= i < n
            &&& revs[i].created_unix_secs <= retention_cutoff(now)
            &&& !is_protected(pointer, journal, revs[i].id@)
        } by {
            let r = revs[n - 1];
            let skip = r.created_unix_secs > retention_cutoff(now) || is_protected(
                pointer,
                journal,
                r.id@,
            );
            if skip {
                assert(cur == prev);
            } else {
                assert(cur == prev.push((n - 1) as usize));
            }
            if k < prev.len() {
                assert(cur[k] == prev[k]);
                let i = prev[k] as int;
                assert(0 <= i < n - 1);
                assert(revs[i].created_unix_secs <= retention_cutoff(now));
            } else {
                assert(!skip);
                assert(cur[k] == (n - 1) as usize);
            }
        }
    }
}

/// The most recent revisions are never removed.
pub proof fn lemma_prune_spares_recent(
    revs: Seq<RevisionMetadata>,
    pointer: Option<ActivePointer>,
    journal: Option<ActivationJournal>,
    now: u64,
)
    requires
        revs.len() <= usize::MAX,
    ensures
        forall|k: int|
            0 <= k < prune_spec(revs, pointer, journal, now).len() ==> {
                let i = #[trigger] prune_spec(revs, pointer, journal, now)[k] as int;
                &&& i + RETAIN_RECENT_REVISIONS < revs.len()
                &&& revs[i].created_unix_secs <= retention_cutoff(now)
                &&& !is_protected(pointer, journal, revs[i].id@)
            },
{
    if revs.len() > RETAIN_RECENT_REVISIONS {
        lemma_prune_keeps_protected(
            revs,
            pointer,
            journal,
            now,
            revs.len() - RETAIN_RECENT_REVISIONS,
        );
    }
}

/// The first stored revision whose content hash is `hash`, which a new
/// candidate with the same content reuses.
pub fn find_by_hash(revisions: &Vec<RevisionMetadata>, hash: &str) -> (r: Option<usize>)
    ensures
        match r {
            Some(i) => i < revisions@.len() && revisions@[i as int].hash@ == hash@ && forall|k: int|
                0 <= k < i ==> (#[trigger] revisions@[k]).hash@ != hash@,
            None => forall|k: int|
                0 <= k < revisions@.len() ==> (#[trigger] revisions@[k]).hash@ != hash@,
        },
{
    let mut i: usize = 0;
    while i < revisions.len()
        invariant
            i <= revisions@.len(),
            forall|k: int| 0 <= k < i ==> (#[trigger] revisions@[k]).hash@ != hash@,
        decreases revisions@.len() - i,
    {
        if str_eq(revisions[i].hash.as_str(), hash) {
            return Some(i);
        }
        i += 1;
    }
    None
}


/// What storing a candidate with a given content hash does first.
#[derive(Debug)]
pub enum CandidateStep {
    /// Hand back the stored revision at this position: same content.
    Reuse(usize),
    /// Remove the revisions at these positions, then store a new revision.
    Store(Vec<usize>),
}

/// `r` is the step for a candidate with content hash `hash`: with
/// deduplication and a stored revision of that hash, the first such
/// revision is reused; otherwise retention runs and a new revision is
/// stored.
pub open spec fn candidate_step_ok(
    revs: Seq<RevisionMetadata>,
    hash: Seq<char>,
    deduplicate: bool,
    pointer: Option<ActivePointer>,
    journal: Option<ActivationJournal>,
    now: u64,
    r: CandidateStep,
) -> bool {
    if deduplicate && exists|k: int| 0 <= k < revs.len() && (#[trigger] revs[k]).hash@ == hash {
        &&& r matches CandidateStep::Reuse(i)
        &&& i < revs.len() && revs[i as int].hash@ == hash
        &&& forall|k: int| 0 <= k < i ==> (#[trigger] revs[k]).hash@ != hash
    } else {
        r matches CandidateStep::Store(p) && p@ == prune_spec(revs, pointer, journal, now)
    }
}

/// Decides how a candidate with content hash `hash` is stored.
pub fn candidate_step(
    revisions: &Vec<RevisionMetadata>,
    hash: &str,
    deduplicate: bool,
    pointer: &Option<ActivePointer>,
    journal: &Option<ActivationJournal>,
    now: u64,
) -> (r: CandidateStep)
    ensures
        candidate_step_ok(revisions@, hash@, deduplicate, *pointer, *journal, now, r),
{
    if deduplicate {
        match find_by_hash(revisions, hash) {
            Some(i) => {
                return CandidateStep::Reuse(i);
            },
            None => {},
        }
    }
    CandidateStep::Store(prune_selection(revisions, pointer, journal, now))
}

/// The identifier of a new revision with sequence `sequence`, and the
/// sequence after it; a sequence that cannot advance is refused.
pub fn allocate_revision(sequence: u64, hash: &str) -> (r: Result<(String, u64), RevisionError>)
    ensures
        sequence < u64::MAX ==> (r matches Ok((id, next)) && utf8(id@) == revision_id_bytes(
            sequence,
            hash@,
        ) && next == sequence + 1),
        sequence == u64::MAX ==> (r matches Err(RevisionError::InvalidStored(m)) && m@
            == "revision sequence overflow"@),
{
    if sequence == u64::MAX {
        return Err(stored_error("revision sequence overflow"));
    }
    Ok((revision_id(sequence, hash), sequence + 1))
}

/// Storing the same content again with deduplication hands back a stored
/// revision of that content: once a revision with hash `h` is stored, the
/// step for a candidate with hash `h` reuses a revision whose hash is `h`.
pub proof fn lemma_same_content_is_reused(
    revs: Seq<RevisionMetadata>,
    stored: RevisionMetadata,
    pointer: Option<ActivePointer>,
    journal: Option<ActivationJournal>,
    now: u64,
    r: CandidateStep,
)
    requires
        candidate_step_ok(revs.push(stored), stored.hash@, true, pointer, journal, now, r),
    ensures
        r matches CandidateStep::Reuse(i) && i < revs.len() + 1 && revs.push(stored)[i as int].hash@
            == stored.hash@,
{
    assert(revs.push(stored)[revs.len() as int].hash@ == stored.hash@);
}


/// One above sequence `s`, held at `u64::MAX`.
pub open spec fn one_above(s: int) -> int {
    if s + 1 > u64::MAX {
        u64::MAX as int
    } else {
        s + 1
    }
}

/// The next sequence is at least one, is above every stored sequence (held
/// at `u64::MAX`), and is either one or one above some stored sequence: it
/// is the largest of these, wherever the names stand in the listing.
pub proof fn lemma_next_sequence_is_above_all(names: Seq<String>)
    ensures
        next_sequence_spec(names) >= 1,
        forall|i: int|
            0 <= i < names.len() && (#[trigger] name_sequence(utf8(names[i]@))) is Some
                ==> next_sequence_spec(names) >= one_above(name_sequence(utf8(names[i]@))->0),
        next_sequence_spec(names) == 1 || exists|i: int|
            0 <= i < names.len() && (#[trigger] name_sequence(utf8(names[i]@))) is Some
                && next_sequence_spec(names) == one_above(name_sequence(utf8(names[i]@))->0),
    decreases names.len(),
{
    if names.len() > 0 {
        let d = names.drop_last();
        lemma_next_sequence_is_above_all(d);
        assert forall|i: int|
            0 <= i < names.len() && (#[trigger] name_sequence(utf8(names[i]@))) is Some
                implies next_sequence_spec(names) >= one_above(name_sequence(utf8(names[i]@))->0) by {
            if i < d.len() {
                assert(names[i] == d[i]);
                assert(name_sequence(utf8(d[i]@)) is Some);
            }
        }
        if next_sequence_spec(names) != 1 {
            if next_sequence_spec(names) == next_sequence_spec(d) {
                if next_sequence_spec(d) != 1 {
                    let i = choose|i: int|
                        0 <= i < d.len() && (#[trigger] name_sequence(utf8(d[i]@))) is Some
                            && next_sequence_spec(d) == one_above(name_sequence(utf8(d[i]@))->0);
                    assert(names[i] == d[i]);
                    assert(name_sequence(utf8(names[i]@)) is Some);
                }
            } else {
                let i = names.len() - 1;
                assert(names[i] == names.last());
                assert(name_sequence(utf8(names[i]@)) is Some);
            }
        }
    }
}

/// The next sequence does not depend on the order in which the stored names
/// are listed.
pub proof fn lemma_next_sequence_ignores_listing_order(
    names: Seq<String>,
    other: Seq<String>,
    p: Seq<int>,
    q: Seq<int>,
)
    requires
        other.len() == names.len(),
        crate::conflict::inverse_permutations(p, q, names.len() as int),
        forall|k: int| 0 <= k < other.len() ==> #[trigger] other[k] == names[p[k]],
    ensures
        next_sequence_spec(other) == next_sequence_spec(names),
{
    lemma_next_sequence_is_above_all(names);
    lemma_next_sequence_is_above_all(other);
    let a = next_sequence_spec(names);
    let b = next_sequence_spec(other);
    if a != 1 {
        let i = choose|i: int|
            0 <= i < names.len() && (#[trigger] name_sequence(utf8(names[i]@))) is Some && a
                == one_above(name_sequence(utf8(names[i]@))->0);
        let k = q[i];
        assert(other[k] == names[p[k]]);
        assert(p[q[i]] == i);
        assert(name_sequence(utf8(other[k]@)) is Some);
        assert(b >= a);
    }
    if b != 1 {
        let k = choose|k: int|
            0 <= k < other.len() && (#[trigger] name_sequence(utf8(other[k]@))) is Some && b
                == one_above(name_sequence(utf8(other[k]@))->0);
        assert(other[k] == names[p[k]]);
        assert(name_sequence(utf8(names[p[k]]@)) is Some);
        assert(a >= b);
    }
}

} // verus!
