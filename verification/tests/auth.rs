use privafile::catalog::DbManager;
use privafile::errors::{AuthError, IdentityError};
use privafile::guard::authenticate;
use privafile::procedures::{authenticate_user, register_user, user_exists};
use privafile::token::PasetoManager;

fn manager() -> PasetoManager {
    PasetoManager::new(vec![7u8; 32]).unwrap()
}

#[test]
fn manager_needs_a_32_byte_key() {
    assert!(matches!(
        PasetoManager::new(vec![1u8; 16]),
        Err(AuthError::Malformed)
    ));
    assert!(PasetoManager::new(vec![0u8; 32]).is_ok());
}

#[test]
fn token_roundtrip_carries_the_subject() {
    let m = manager();
    let token = m.create_token("user-42", 72).unwrap();
    let claims = m.verify_token(token.as_str()).unwrap();
    assert_eq!(claims.sub, "user-42");
    assert_eq!(claims.exp, claims.iat + 72 * 3600);
}

#[test]
fn expiry_decision_is_exact() {
    let m = manager();
    let token = m.create_token("user-42", 1).unwrap();
    let claims = m.verify_token_at(token.as_str(), 0).unwrap();
    // one second before expiry the token still verifies
    assert!(m.verify_token_at(token.as_str(), claims.exp - 1).is_ok());
    // at the expiry instant it still verifies; the instant after it fails
    assert!(m.verify_token_at(token.as_str(), claims.exp).is_ok());
    assert_eq!(
        m.verify_token_at(token.as_str(), claims.exp + 1).unwrap_err(),
        AuthError::Expired
    );
}

#[test]
fn garbage_tokens_are_malformed() {
    let m = manager();
    assert_eq!(
        m.verify_token("v4.local.not-a-real-token").unwrap_err(),
        AuthError::Malformed
    );
    assert_eq!(m.verify_token("").unwrap_err(), AuthError::Malformed);
}

#[test]
fn a_foreign_key_rejects_the_token() {
    let m = manager();
    let other = PasetoManager::new(vec![8u8; 32]).unwrap();
    let token = m.create_token("user-42", 1).unwrap();
    assert_eq!(
        other.verify_token(token.as_str()).unwrap_err(),
        AuthError::Malformed
    );
}

#[test]
fn guard_requires_a_bearer_header() {
    let m = manager();
    assert_eq!(
        authenticate(&m, None).unwrap_err(),
        AuthError::MissingCredential
    );
    assert_eq!(
        authenticate(&m, Some("Basic abc")).unwrap_err(),
        AuthError::MalformedCredential
    );
    assert_eq!(
        authenticate(&m, Some("Bear")).unwrap_err(),
        AuthError::MalformedCredential
    );
    assert_eq!(
        authenticate(&m, Some("Bearer junk")).unwrap_err(),
        AuthError::Malformed
    );
}

#[test]
fn guard_accepts_a_valid_bearer_token() {
    let m = manager();
    let token = m.create_token("user-9", 2).unwrap();
    let header = format!("Bearer {}", token);
    let user = authenticate(&m, Some(header.as_str())).unwrap();
    assert_eq!(user.user_id, "user-9");
}

#[test]
fn registration_validates_its_inputs() {
    let mut db = DbManager::new();
    assert_eq!(
        register_user(&mut db, "ab", "longenough").unwrap_err(),
        IdentityError::InvalidUsername
    );
    assert_eq!(
        register_user(&mut db, "has space", "longenough").unwrap_err(),
        IdentityError::InvalidUsername
    );
    assert_eq!(
        register_user(&mut db, "alice", "short").unwrap_err(),
        IdentityError::InvalidPassword
    );
    // the password length gate comes before the character scan
    assert_eq!(
        register_user(&mut db, "has space", "short").unwrap_err(),
        IdentityError::InvalidPassword
    );
    // lengths count UTF-8 bytes: 26 two-byte letters overrun 50
    let wide: String = "é".repeat(26);
    assert_eq!(
        register_user(&mut db, wide.as_str(), "longenough").unwrap_err(),
        IdentityError::InvalidUsername
    );
    // any Unicode letter or digit is a valid username character
    assert!(register_user(&mut db, "jos\u{e9}42", "longenough").is_ok());
}

#[test]
fn registration_refuses_a_taken_username() {
    let mut db = DbManager::new();
    register_user(&mut db, "alice", "password1").unwrap();
    assert_eq!(
        register_user(&mut db, "alice", "password2").unwrap_err(),
        IdentityError::UsernameTaken
    );
}

#[test]
fn login_verifies_the_password() {
    let mut db = DbManager::new();
    let uid = register_user(&mut db, "alice", "password1").unwrap();
    assert_eq!(uid.len(), 36);
    let back = authenticate_user(&db, "alice", "password1").unwrap();
    assert_eq!(back, uid);
    assert_eq!(
        authenticate_user(&db, "alice", "wrongpass").unwrap_err(),
        IdentityError::InvalidCredentials
    );
    assert_eq!(
        authenticate_user(&db, "nobody", "password1").unwrap_err(),
        IdentityError::UnknownUser
    );
    assert!(user_exists(&db, uid.as_str()).unwrap());
    assert!(!user_exists(&db, "missing-id").unwrap());
}
