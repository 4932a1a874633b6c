//! Secret references: configuration names where a secret lives, never the
//! secret itself.

use vstd::prelude::*;
use crate::text::{utf8, is_alnum, is_control, starts_with, byte_is_alnum, byte_is_control,
    slice_starts_with};

verus! {

pub open spec fn env_prefix() -> Seq<u8> {
    seq![0x65u8, 0x6eu8, 0x76u8, 0x3au8, 0x2fu8, 0x2fu8]
}

pub open spec fn file_prefix() -> Seq<u8> {
    seq![0x66u8, 0x69u8, 0x6cu8, 0x65u8, 0x3au8, 0x2fu8, 0x2fu8]
}

pub open spec fn env_name_byte(b: u8) -> bool {
    is_alnum(b) || b == 0x5f
}

/// A secret reference is at most 4096 bytes and is either `env://NAME`, where
/// NAME is a nonempty run of ASCII letters, digits and `_`, or `file://PATH`,
/// where PATH is absolute and holds no control byte.
pub open spec fn secret_ref_ok(b: Seq<u8>) -> bool {
    &&& b.len() <= 4096
    &&& if starts_with(b, env_prefix()) {
        b.len() > 6 && forall|i: int| 6 <= i < b.len() ==> env_name_byte(#[trigger] b[i])
    } else if starts_with(b, file_prefix()) {
        b.len() > 7 && b[7] == 0x2f && forall|i: int| 7 <= i < b.len() ==> !is_control(#[trigger] b[i])
    } else {
        false
    }
}

/// Checks the syntax of a secret reference.
pub fn secret_ref_valid(text: &str) -> (r: bool)
    ensures
        r == secret_ref_ok(utf8(text@)),
{
    let b = text.as_bytes();
    if b.len() > 4096 {
        return false;
    }
    let env: [u8; 6] = [0x65, 0x6e, 0x76, 0x3a, 0x2f, 0x2f];
    let file: [u8; 7] = [0x66, 0x69, 0x6c, 0x65, 0x3a, 0x2f, 0x2f];
    assert(env@ =~= env_prefix());
    assert(file@ =~= file_prefix());
    if slice_starts_with(b, env.as_slice()) {
        if b.len() <= 6 {
            return false;
        }
        let mut i: usize = 6;
        while i < b.len()
            invariant
                6 <= i <= b@.len(),
                b@ == utf8(text@),
                starts_with(b@, env_prefix()),
                forall|k: int| 6 <= k < i ==> env_name_byte(#[trigger] b@[k]),
            decreases b@.len() - i,
        {
            if !(byte_is_alnum(b[i]) || b[i] == 0x5f) {
                assert(!env_name_byte(b@[i as int]));
                return false;
            }
            i += 1;
        }
        true
    } else if slice_starts_with(b, file.as_slice()) {
        if b.len() <= 7 || b[7] != 0x2f {
            return false;
        }
        let mut i: usize = 7;
        while i < b.len()
            invariant
                7 <= i <= b@.len(),
                b@ == utf8(text@),
                !starts_with(b@, env_prefix()),
                starts_with(b@, file_prefix()),
                forall|k: int| 7 <= k < i ==> !is_control(#[trigger] b@[k]),
            decreases b@.len() - i,
        {
            if byte_is_control(b[i]) {
                assert(is_control(b@[i as int]));
                return false;
            }
            i += 1;
        }
        true
    } else {
        false
    }
}


/// Whether `age::x25519::Recipient::from_str` accepts a text: a Bech32
/// string with the `age` prefix that encodes a 32-byte public key.
pub uninterp spec fn age_recipient_accepted(text: Seq<char>) -> bool;

/// Calls `<age::x25519::Recipient as FromStr>::from_str` and reports whether
/// it succeeded; the answer is named by `age_recipient_accepted`.
#[verifier::external_body]
fn age_recipient_parse(text: &str) -> (r: bool)
    ensures
        r == age_recipient_accepted(text@),
{
    text.parse::<age::x25519::Recipient>().is_ok()
}

/// Whether a text is an age X25519 recipient.
pub fn age_recipient_valid(text: &str) -> (r: bool)
    ensures
        r == age_recipient_accepted(text@),
{
    age_recipient_parse(text)
}

} // verus!
