//! HTTP Basic authentication: reading credentials, checking Argon2id hash
//! policy, the verification budget, and the outcome of a check.

use vstd::prelude::*;
use vstd::string::{StrSliceExecFns, StringExecFns};
use vstd::utf8::decode_utf8;
use crate::text::{utf8, utf8_text, str_chars, chars_ci_eq, ci_eq};
use crate::negotiate::{find_upto, lemma_find_upto, chars_find_upto};
use crate::cors::value_text;

verus! {

/// Longest `Authorization` value read.
pub const MAX_AUTHORIZATION_BYTES: usize = 2048;

/// Longest password accepted.
pub const MAX_PASSWORD_BYTES: usize = 1024;

/// Longest stored hash accepted.
pub const MAX_HASH_BYTES: usize = 1024;

/// What the `base64` crate's standard engine decodes a text to.
pub uninterp spec fn base64_standard(text: Seq<char>) -> Option<Seq<u8>>;

/// Calls `base64::engine::general_purpose::STANDARD.decode`; the result is
/// named by `base64_standard`.
#[verifier::external_body]
fn base64_decode(text: &str) -> (r: Option<Vec<u8>>)
    ensures
        match r {
            Some(v) => base64_standard(text@) == Some(v@),
            None => base64_standard(text@) is None,
        },
{
    <base64::engine::GeneralPurpose as base64::Engine>::decode(&base64::engine::general_purpose::STANDARD, text).ok()
}

pub open spec fn basic_lit() -> Seq<char> {
    seq!['b', 'a', 's', 'i', 'c']
}

/// The credentials of an `Authorization: Basic` value, as username and
/// password bytes: one readable value within the bound, the scheme `Basic`
/// in any case, one space, a nonempty encoded part without spaces that
/// decodes to at most `1089` bytes holding a `:`, a UTF-8 username of
/// 1..=64 bytes before it and a password of at most 1024 bytes after it.
pub open spec fn basic_credentials(values: Seq<Vec<u8>>) -> Option<(Seq<u8>, Seq<u8>)> {
    if values.len() != 1 || value_text(values[0]@) is None || values[0]@.len() > MAX_AUTHORIZATION_BYTES {
        None
    } else {
        let t = decode_utf8(values[0]@);
        let i = find_upto(t, ' ', 0, t.len() as int);
        let encoded = t.subrange(i + 1, t.len() as int);
        if i >= t.len() || !ci_eq(t.subrange(0, i), basic_lit()) || encoded.len() == 0 || encoded.contains(' ') {
            None
        } else {
            match base64_standard(encoded) {
                None => None,
                Some(d) => if d.len() > MAX_PASSWORD_BYTES + 65 {
                    None
                } else {
                    match d.index_of_first(0x3au8) {
                        None => None,
                        Some(j) => {
                            let username = d.take(j);
                            let password = d.skip(j + 1);
                            if !vstd::utf8::valid_utf8(username) || username.len() == 0 || username.len()
                                > 64 || password.len() > MAX_PASSWORD_BYTES {
                                None
                            } else {
                                Some((username, password))
                            }
                        },
                    }
                },
            }
        }
    }
}

fn copy_range(b: &Vec<u8>, from: usize, to: usize) -> (r: Vec<u8>)
    requires
        from <= to <= b@.len(),
    ensures
        r@ == b@.subrange(from as int, to as int),
{
    let mut out: Vec<u8> = Vec::new();
    let mut i = from;
    while i < to
        invariant
            from <= i <= to <= b@.len(),
            out@ == b@.subrange(from as int, i as int),
        decreases to - i,
    {
        out.push(b[i]);
        i += 1;
    }
    out
}

/// Reads Basic credentials from the `Authorization` values.
pub fn credentials(values: &Vec<Vec<u8>>) -> (r: Option<(String, Vec<u8>)>)
    ensures
        match basic_credentials(values@) {
            None => r is None,
            Some((u, p)) => r matches Some((name, password)) && utf8(name@) == u && password@ == p,
        },
{
    if values.len() != 1 {
        return None;
    }
    let text = match crate::cors::text_of(&values[0]) {
        Some(t) => t,
        None => {
            return None;
        },
    };
    if values[0].len() > MAX_AUTHORIZATION_BYTES {
        return None;
    }
    let c = str_chars(text.as_str());
    let n = c.len();
    let i = chars_find_upto(&c, ' ', 0, n);
    proof {
        lemma_find_upto(c@, ' ', 0, n as int);
    }
    if i >= n {
        return None;
    }
    let basic: [char; 5] = ['b', 'a', 's', 'i', 'c'];
    assert(basic@ =~= basic_lit());
    if !chars_ci_eq(&c, 0, i, basic.as_slice()) {
        return None;
    }
    if i + 1 >= n {
        return None;
    }
    let j = chars_find_upto(&c, ' ', i + 1, n);
    proof {
        lemma_find_upto(c@, ' ', i + 1, n as int);
    }
    if j < n {
        proof {
            assert(c@.subrange(i + 1, n as int)[j - i - 1] == ' ');
        }
        return None;
    }
    proof {
        let enc = c@.subrange(i + 1, n as int);
        assert forall|k: int| 0 <= k < enc.len() implies #[trigger] enc[k] != ' ' by {
            assert(enc[k] == c@[i + 1 + k]);
        }
        assert(!enc.contains(' '));
    }
    let encoded = text.as_str().substring_char(i + 1, n);
    let decoded = match base64_decode(encoded) {
        Some(d) => d,
        None => {
            return None;
        },
    };
    if decoded.len() > MAX_PASSWORD_BYTES + 65 {
        return None;
    }
    let mut k: usize = 0;
    while k < decoded.len() && decoded[k] != 0x3a
        invariant
            k <= decoded@.len(),
            forall|m: int| 0 <= m < k ==> decoded@[m] != 0x3au8,
        decreases decoded@.len() - k,
    {
        k += 1;
    }
    proof {
        decoded@.index_of_first_ensures(0x3au8);
    }
    if k >= decoded.len() {
        return None;
    }
    proof {
        assert(decoded@.contains(0x3au8)) by {
            assert(decoded@[k as int] == 0x3au8);
        }
        let w = decoded@.index_of_first(0x3au8)->0;
        if w < k {
            assert(decoded@[w] != 0x3au8);
        }
        if w > k {
            assert(decoded@[k as int] != 0x3au8);
        }
        assert(w == k);
    }
    let user_bytes = copy_range(&decoded, 0, k);
    let username = match utf8_text(user_bytes.as_slice()) {
        Some(u) => String::from_str(u),
        None => {
            return None;
        },
    };
    if user_bytes.len() == 0 || user_bytes.len() > 64 {
        return None;
    }
    let password = copy_range(&decoded, k + 1, decoded.len());
    if password.len() > MAX_PASSWORD_BYTES {
        return None;
    }
    proof {
        assert(user_bytes@ =~= decoded@.take(k as int));
        assert(password@ =~= decoded@.skip(k + 1));
    }
    Some((username, password))
}

/// Why a Basic authentication policy cannot be built.
#[derive(Clone, Copy, Debug, PartialEq, Eq, Structural)]
pub enum BuildError {
    /// A user's secret could not be loaded.
    Secret,
    /// A hash is invalid or outside the approved Argon2id policy.
    Hash,
}

/// The fields of a PHC hash string the policy reads.
pub struct PhcView {
    pub algorithm: Seq<char>,
    pub version: Option<u32>,
    pub has_salt: bool,
    pub has_hash: bool,
}

/// A parsed PHC hash string.
pub struct PhcHash {
    algorithm: String,
    version: Option<u32>,
    has_salt: bool,
    has_hash: bool,
}

impl View for PhcHash {
    type V = PhcView;

    closed spec fn view(&self) -> PhcView {
        PhcView {
            algorithm: self.algorithm@,
            version: self.version,
            has_salt: self.has_salt,
            has_hash: self.has_hash,
        }
    }
}

/// What `argon2::PasswordHash::new` reads from a text.
pub uninterp spec fn phc_from_str(text: Seq<char>) -> Option<PhcView>;

/// Calls `argon2::PasswordHash::new`; the fields read from its result are
/// named by `phc_from_str`.
#[verifier::external_body]
fn parse_phc(text: &str) -> (r: Option<PhcHash>)
    ensures
        match r {
            Some(h) => phc_from_str(text@) == Some(h@),
            None => phc_from_str(text@) is None,
        },
{
    let hash = argon2::PasswordHash::new(text).ok()?;
    Some(PhcHash {
        algorithm: hash.algorithm.as_str().to_string(), version: hash.version,
        has_salt: hash.salt.is_some(), has_hash: hash.hash.is_some(),
    })
}

/// The memory, pass and lane costs `argon2::Params::try_from` takes from
/// the PHC hash that a text parses to.
pub uninterp spec fn argon2_params_of(text: Seq<char>) -> Option<(u32, u32, u32)>;

/// Calls `argon2::Params::try_from` on the hash parsed from `text` (the
/// text is turned into the `PasswordHash` argument); the costs are named
/// by `argon2_params_of`.
#[verifier::external_body]
fn argon2_params(text: &str) -> (r: Option<(u32, u32, u32)>)
    ensures
        r == argon2_params_of(text@),
{
    let hash = argon2::PasswordHash::new(text).ok()?;
    argon2::Params::try_from(&hash).ok().map(|p| (p.m_cost(), p.t_cost(), p.p_cost()))
}

/// The approved Argon2id policy: version 19, memory 8..=64 MiB, 1..=10
/// passes, 1..=4 lanes, with salt and output; gives the costs.
pub open spec fn approved_costs(bytes: Seq<u8>) -> Option<(u32, u32, u32)> {
    if !vstd::utf8::valid_utf8(bytes) {
        None
    } else {
        match phc_from_str(decode_utf8(bytes)) {
            None => None,
            Some(h) => if h.algorithm == "argon2id"@ && h.version == Some(0x13u32) {
                match argon2_params_of(decode_utf8(bytes)) {
                    Some((m, t, p)) => if 8192 <= m <= 65536 && 1 <= t <= 10 && 1 <= p <= 4
                        && h.has_salt && h.has_hash {
                        Some((m, t, p))
                    } else {
                        None
                    },
                    None => None,
                }
            } else {
                None
            },
        }
    }
}

/// Checks a stored hash against the approved Argon2id policy.
pub fn validate_hash(bytes: &[u8]) -> (r: Result<(u32, u32, u32), BuildError>)
    ensures
        match approved_costs(bytes@) {
            Some(c) => r == Ok::<(u32, u32, u32), BuildError>(c),
            None => r == Err::<(u32, u32, u32), BuildError>(BuildError::Hash),
        },
{
    let text = match utf8_text(bytes) {
        Some(t) => t,
        None => {
            return Err(BuildError::Hash);
        },
    };
    proof {
        vstd::utf8::encode_utf8_decode_utf8(text@);
        reveal_strlit("argon2id");
    }
    let hash = match parse_phc(text) {
        Some(h) => h,
        None => {
            return Err(BuildError::Hash);
        },
    };
    if !crate::text::str_eq(hash.algorithm.as_str(), "argon2id") {
        return Err(BuildError::Hash);
    }
    match hash.version {
        Some(v) => {
            if v != 0x13 {
                return Err(BuildError::Hash);
            }
        },
        None => {
            return Err(BuildError::Hash);
        },
    }
    let (m, t, p) = match argon2_params(text) {
        Some(c) => c,
        None => {
            return Err(BuildError::Hash);
        },
    };
    if !(8192 <= m && m <= 65536) || !(1 <= t && t <= 10) || !(1 <= p && p <= 4) || !hash.has_salt
        || !hash.has_hash {
        return Err(BuildError::Hash);
    }
    Ok((m, t, p))
}

/// One approved cost shared by all users of a policy: `Err(Hash)` when a
/// hash is unapproved, the costs differ, or there is no user.
pub open spec fn shared_cost(hashes: Seq<Vec<u8>>) -> Option<(u32, u32, u32)> {
    if hashes.len() == 0 {
        None
    } else if forall|i: int| 0 <= i < hashes.len() ==> approved_costs((#[trigger] hashes[i])@) == approved_costs(hashes[0]@) && approved_costs(hashes[i]@) is Some {
        approved_costs(hashes[0]@)
    } else {
        None
    }
}

/// The cost every user hash of a policy shares.
pub fn policy_cost(hashes: &Vec<Vec<u8>>) -> (r: Result<(u32, u32, u32), BuildError>)
    ensures
        match shared_cost(hashes@) {
            Some(c) => r == Ok::<(u32, u32, u32), BuildError>(c),
            None => r == Err::<(u32, u32, u32), BuildError>(BuildError::Hash),
        },
{
    if hashes.len() == 0 {
        return Err(BuildError::Hash);
    }
    let first = match validate_hash(hashes[0].as_slice()) {
        Ok(c) => c,
        Err(e) => {
            return Err(e);
        },
    };
    let mut i: usize = 1;
    while i < hashes.len()
        invariant
            1 <= i <= hashes@.len(),
            approved_costs(hashes@[0]@) == Some(first),
            forall|k: int| 0 <= k < i ==> approved_costs((#[trigger] hashes@[k])@) == Some(first),
        decreases hashes@.len() - i,
    {
        match validate_hash(hashes[i].as_slice()) {
            Ok(c) => {
                if c.0 != first.0 || c.1 != first.1 || c.2 != first.2 {
                    return Err(BuildError::Hash);
                }
            },
            Err(e) => {
                return Err(e);
            },
        }
        i += 1;
    }
    Ok(first)
}

/// Memory in KiB and pass slots all Basic authentication policies may use.
pub const MAX_VERIFICATION_MEMORY_KIB: usize = 524288;

pub const MAX_VERIFICATION_PASSES: usize = 64;

/// Adds a policy's worst-case verification load to the running totals:
/// `None` (the hash policy is refused) on overflow or beyond the global
/// budget.
pub fn admit_cost(
    total_memory_kib: usize,
    total_passes: usize,
    cost: (u32, u32, u32),
    max_concurrent: usize,
) -> (r: Option<(usize, usize)>)
    ensures
        ({
            let memory = cost.0 * max_concurrent;
            let passes = cost.1 * max_concurrent;
            if memory > usize::MAX || passes > usize::MAX || total_memory_kib + memory > usize::MAX
                || total_passes + passes > usize::MAX || total_memory_kib + memory
                > MAX_VERIFICATION_MEMORY_KIB || total_passes + passes > MAX_VERIFICATION_PASSES {
                r is None
            } else {
                r == Some(((total_memory_kib + memory) as usize, (total_passes + passes) as usize))
            }
        }),
{
    let memory = match (cost.0 as usize).checked_mul(max_concurrent) {
        Some(v) => v,
        None => {
            return None;
        },
    };
    let passes = match (cost.1 as usize).checked_mul(max_concurrent) {
        Some(v) => v,
        None => {
            return None;
        },
    };
    let total_memory = match total_memory_kib.checked_add(memory) {
        Some(v) => v,
        None => {
            return None;
        },
    };
    let total = match total_passes.checked_add(passes) {
        Some(v) => v,
        None => {
            return None;
        },
    };
    if total_memory > MAX_VERIFICATION_MEMORY_KIB || total > MAX_VERIFICATION_PASSES {
        return None;
    }
    Some((total_memory, total))
}

/// Whether Argon2 accepts a password against a PHC hash string.
pub uninterp spec fn argon2_accepts(password: Seq<u8>, hash: Seq<char>) -> bool;

/// Parses the hash with `argon2::PasswordHash::new` and calls
/// `argon2::Argon2::default().verify_password`; the verdict is named by
/// `argon2_accepts` (false for an unparsable hash).
#[verifier::external_body]
fn argon2_verify(password: &[u8], hash: &str) -> (r: bool)
    ensures
        r == argon2_accepts(password@, hash@),
{
    match argon2::PasswordHash::new(hash) {
        Ok(h) => argon2::PasswordVerifier::verify_password(&argon2::Argon2::default(), password, &h).is_ok(),
        Err(_) => false,
    }
}

/// Whether a password matches a stored hash: never for a hash that is not
/// UTF-8.
pub fn verify(password: &[u8], hash: &[u8]) -> (r: bool)
    ensures
        r == (vstd::utf8::valid_utf8(hash@) && argon2_accepts(password@, decode_utf8(hash@))),
{
    match utf8_text(hash) {
        Some(text) => {
            proof {
                vstd::utf8::encode_utf8_decode_utf8(text@);
            }
            argon2_verify(password, text)
        },
        None => false,
    }
}

/// The result of authenticating a request.
#[derive(Clone, Debug)]
pub enum Outcome {
    /// The route has no Basic authentication policy.
    NotConfigured,
    /// The request carries a known user's valid password.
    Authenticated(String),
    /// Challenge the client with the realm.
    Unauthorized(String),
    /// Verification capacity or the deadline was exhausted.
    Unavailable,
}

/// The outcome of a verification: only a known user whose password
/// verified is authenticated (an unknown user is checked against a
/// fallback hash and always refused); a failed or late verification makes
/// the service unavailable.
pub fn verification_outcome(known: bool, verified: Option<bool>, username: String, realm: &str) -> (r:
    Outcome)
    ensures
        match verified {
            Some(true) => if known {
                r matches Outcome::Authenticated(u) && u@ == username@
            } else {
                r matches Outcome::Unauthorized(m) && m@ == realm@
            },
            Some(false) => r matches Outcome::Unauthorized(m) && m@ == realm@,
            None => r is Unavailable,
        },
{
    match verified {
        Some(true) => {
            if known {
                Outcome::Authenticated(username)
            } else {
                Outcome::Unauthorized(String::from_str(realm))
            }
        },
        Some(false) => Outcome::Unauthorized(String::from_str(realm)),
        None => Outcome::Unavailable,
    }
}

} // verus!
