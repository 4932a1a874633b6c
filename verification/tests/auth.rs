use aegisproxy::auth::{
    admit_cost, credentials, policy_cost, validate_hash, verification_outcome, verify, Outcome,
};
use argon2::password_hash::SaltString;
use argon2::{Argon2, PasswordHasher};
use base64::engine::general_purpose::STANDARD;
use base64::Engine;

fn hash(password: &[u8]) -> String {
    let salt = SaltString::encode_b64(b"0123456789abcdef").expect("salt");
    Argon2::default()
        .hash_password(password, &salt)
        .expect("hash")
        .to_string()
}

fn basic(pair: &[u8]) -> Vec<Vec<u8>> {
    vec![format!("Basic {}", STANDARD.encode(pair)).into_bytes()]
}

#[test]
fn verifies_known_user_and_returns_one_generic_denial() {
    let stored = hash(b"correct horse");
    let cost = policy_cost(&vec![stored.clone().into_bytes()]).expect("approved");
    assert!(admit_cost(0, 0, cost, 2).is_some());
    assert!(admit_cost(0, 0, cost, 100).is_none());

    let (user, password) = credentials(&basic(b"alice:correct horse")).expect("credentials");
    assert_eq!(user, "alice");
    let verified = verify(&password, stored.as_bytes());
    assert!(verified);
    match verification_outcome(true, Some(verified), user, "Private") {
        Outcome::Authenticated(name) => assert_eq!(name, "alice"),
        other => panic!("unexpected {other:?}"),
    }

    let (user, password) = credentials(&basic(b"unknown:wrong")).expect("credentials");
    let verified = verify(&password, stored.as_bytes());
    assert!(!verified);
    match verification_outcome(false, Some(verified), user, "Private") {
        Outcome::Unauthorized(realm) => assert_eq!(realm, "Private"),
        other => panic!("unexpected {other:?}"),
    }
    assert!(matches!(
        verification_outcome(true, None, "alice".into(), "Private"),
        Outcome::Unavailable
    ));
}

#[test]
fn rejects_unbounded_argon2_parameters() {
    let stored = hash(b"password").replace("m=19456", "m=999999");
    assert!(validate_hash(stored.as_bytes()).is_err());
    let approved = hash(b"password");
    assert_eq!(validate_hash(approved.as_bytes()), Ok((19456, 2, 1)));
    assert!(validate_hash(b"not a hash").is_err());
}

#[test]
fn credentials_require_one_bounded_basic_value() {
    assert!(credentials(&vec![]).is_none());
    assert!(credentials(&vec![b"Bearer abc".to_vec()]).is_none());
    let lower = vec![format!("basic {}", STANDARD.encode(b"bob:pw")).into_bytes()];
    assert_eq!(credentials(&lower).expect("credentials").0, "bob");
    assert!(credentials(&basic(b"no-colon")).is_none());
    assert!(credentials(&basic(b":empty-user")).is_none());
    let mut twice = basic(b"bob:pw");
    twice.push(twice[0].clone());
    assert!(credentials(&twice).is_none());
    assert!(credentials(&vec![b"Basic !!!".to_vec()]).is_none());
    let (_, password) = credentials(&basic(b"bob:a:b")).expect("credentials");
    assert_eq!(password, b"a:b".to_vec());
}
