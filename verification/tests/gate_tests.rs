use authgate::codec::decode_token;
use authgate::gate::{authorize_at, authorize_now, DenyReason, Verdict};
use authgate::issuance::{issue_at, issue_now, IssueError, TOKEN_LIFETIME_SECS};
use authgate::registry::KeyRegistry;

fn secret() -> Vec<u8> {
    b"your-secret-key".to_vec()
}

fn registry() -> KeyRegistry {
    let mut reg = KeyRegistry::new();
    reg.register(b"test_key".to_vec());
    reg
}

fn bearer(token: &[u8]) -> Vec<u8> {
    let mut h = b"Bearer ".to_vec();
    h.extend_from_slice(token);
    h
}

#[test]
fn registry_membership() {
    let mut reg = KeyRegistry::new();
    assert!(!reg.is_authorized(&b"test_key".to_vec()));
    reg.register(b"test_key".to_vec());
    reg.register(b"other_key".to_vec());
    assert!(reg.is_authorized(&b"test_key".to_vec()));
    assert!(reg.is_authorized(&b"other_key".to_vec()));
    assert!(!reg.is_authorized(&b"unknown".to_vec()));
}

#[test]
fn issue_registered_then_decode() {
    let now: u64 = 1700000000;
    let t = issue_at(&registry(), &secret(), &b"test_key".to_vec(), now)
        .expect("registered credential gets a token");
    let c = decode_token(&secret(), &t, now).expect("fresh token decodes");
    assert_eq!(c.api_key, b"test_key".to_vec());
    assert_eq!(c.exp, now + TOKEN_LIFETIME_SECS);
    assert!(c.exp > now);
}

#[test]
fn issue_unknown_fails() {
    let r = issue_at(&registry(), &secret(), &b"unknown".to_vec(), 1700000000);
    assert_eq!(r, Err(IssueError::InvalidCredential));
}

#[test]
fn scenario_issue_then_protected() {
    let t = issue_now(&registry(), &secret(), &b"test_key".to_vec())
        .expect("pre-registered key gets a token");
    let v = authorize_now(&secret(), Some(&bearer(&t)));
    assert!(matches!(v, Verdict::Authorized(s) if s == b"test_key".to_vec()));
}

#[test]
fn scenario_unknown_key_denied() {
    let r = issue_now(&registry(), &secret(), &b"unknown".to_vec());
    assert_eq!(r, Err(IssueError::InvalidCredential));
}

#[test]
fn scenario_missing_header_denied() {
    let v = authorize_at(&secret(), None, 1700000000);
    assert!(matches!(v, Verdict::Denied(DenyReason::MissingOrMalformedHeader)));
    let v2 = authorize_now(&secret(), None);
    assert!(matches!(v2, Verdict::Denied(DenyReason::MissingOrMalformedHeader)));
}

#[test]
fn scenario_garbage_bearer_denied() {
    let v = authorize_at(&secret(), Some(&b"Bearer garbage".to_vec()), 1700000000);
    assert!(matches!(v, Verdict::Denied(DenyReason::InvalidToken)));
    let v2 = authorize_now(&secret(), Some(&b"Bearer garbage".to_vec()));
    assert!(matches!(v2, Verdict::Denied(DenyReason::InvalidToken)));
}

#[test]
fn wrong_scheme_denied_as_missing() {
    let v = authorize_at(&secret(), Some(&b"Basic dGVzdA".to_vec()), 1700000000);
    assert!(matches!(v, Verdict::Denied(DenyReason::MissingOrMalformedHeader)));
    let v2 = authorize_at(&secret(), Some(&b"Bear".to_vec()), 1700000000);
    assert!(matches!(v2, Verdict::Denied(DenyReason::MissingOrMalformedHeader)));
}

#[test]
fn expired_token_denied_as_expired() {
    let now: u64 = 1700000000;
    let t = issue_at(&registry(), &secret(), &b"test_key".to_vec(), now).unwrap();
    let v = authorize_at(&secret(), Some(&bearer(&t)), now + TOKEN_LIFETIME_SECS);
    assert!(matches!(v, Verdict::Denied(DenyReason::TokenExpired)));
    let v2 = authorize_at(&secret(), Some(&bearer(&t)), now + TOKEN_LIFETIME_SECS - 1);
    assert!(matches!(v2, Verdict::Authorized(s) if s == b"test_key".to_vec()));
}

#[test]
fn tampered_token_denied_at_gate() {
    let now: u64 = 1700000000;
    let t = issue_at(&registry(), &secret(), &b"test_key".to_vec(), now).unwrap();
    let mut t2 = t.clone();
    let last = t2.len() - 1;
    t2[last] ^= 0x01;
    let v = authorize_at(&secret(), Some(&bearer(&t2)), now);
    assert!(matches!(v, Verdict::Denied(DenyReason::InvalidToken)));
}
