use tabsync::auth::{generate_random_string, parse_credentials, AuthError, Authenticator, TokenStore, User, TOKEN_LENGTH};

fn alice() -> Authenticator {
    Authenticator::new(parse_credentials("alice,secret\nbob,hunter2\n"))
}

fn is_alphanumeric_token(t: &str) -> bool {
    t.chars().all(|c| c.is_ascii_uppercase() || c.is_ascii_lowercase() || c.is_ascii_digit())
}

#[test]
fn login_verify_logout_scenario() {
    let mut a = alice();
    let token = a.login("alice", "secret").unwrap();
    assert_eq!(token.chars().count(), 32);
    assert!(is_alphanumeric_token(&token));
    assert!(a.verify("alice", &token));
    a.logout("alice");
    assert!(!a.verify("alice", &token));
}

#[test]
fn logout_then_verify_fails() {
    let mut a = alice();
    let token = a.login_with_token("bob", "hunter2", String::from("tok")).unwrap();
    assert_eq!(token, "tok");
    assert!(a.verify("bob", "tok"));
    a.logout("bob");
    assert!(!a.verify("bob", "tok"));
}

#[test]
fn logout_without_session_is_harmless() {
    let mut a = alice();
    a.logout("alice");
    assert!(!a.verify("alice", ""));
}

#[test]
fn second_login_invalidates_first_token() {
    let mut a = alice();
    let first = a.login_with_token("alice", "secret", String::from("first")).unwrap();
    let second = a.login_with_token("alice", "secret", String::from("second")).unwrap();
    assert!(!a.verify("alice", &first));
    assert!(a.verify("alice", &second));
}

#[test]
fn second_random_login_invalidates_first_token() {
    let mut a = alice();
    let first = a.login("alice", "secret").unwrap();
    let second = a.login("alice", "secret").unwrap();
    assert_ne!(first, second);
    assert!(!a.verify("alice", &first));
    assert!(a.verify("alice", &second));
}

#[test]
fn sessions_are_per_user() {
    let mut a = alice();
    a.login_with_token("alice", "secret", String::from("ta")).unwrap();
    a.login_with_token("bob", "hunter2", String::from("tb")).unwrap();
    assert!(a.verify("alice", "ta"));
    assert!(a.verify("bob", "tb"));
    assert!(!a.verify("alice", "tb"));
    a.logout("alice");
    assert!(!a.verify("alice", "ta"));
    assert!(a.verify("bob", "tb"));
}

#[test]
fn wrong_password_is_invalid_credentials() {
    let mut a = alice();
    assert_eq!(a.login("alice", "wrong"), Err(AuthError::InvalidCredentials));
    assert_eq!(a.login("alice", "hunter2"), Err(AuthError::InvalidCredentials));
    assert_eq!(a.login("carol", "secret"), Err(AuthError::InvalidCredentials));
    assert!(!a.verify("alice", ""));
}

#[test]
fn empty_credential_list_is_unavailable() {
    let mut a = Authenticator::new(Vec::new());
    assert_eq!(a.login("alice", "secret"), Err(AuthError::CredentialStoreUnavailable));
}

#[test]
fn verify_compares_exactly() {
    let mut a = alice();
    a.login_with_token("alice", "secret", String::from("abc")).unwrap();
    assert!(!a.verify("alice", "ab"));
    assert!(!a.verify("alice", "abcd"));
    assert!(!a.verify("alice", "ABC"));
    assert!(!a.verify("Alice", "abc"));
}

#[test]
fn parse_credentials_skips_blank_and_malformed_lines() {
    let users = parse_credentials("alice,secret\r\n\r\nbad\nx,y,z\nbob,hunter2\n,\n");
    let pairs: Vec<(String, String)> =
        users.iter().map(|u| (u.username.clone(), u.password.clone())).collect();
    assert_eq!(
        pairs,
        vec![
            (String::from("alice"), String::from("secret")),
            (String::from("bob"), String::from("hunter2")),
            (String::new(), String::new()),
        ]
    );
}

#[test]
fn parse_credentials_empty_text() {
    assert_eq!(parse_credentials("").len(), 0);
}

#[test]
fn credentials_built_directly() {
    let mut a = Authenticator::new(vec![User { username: String::from("u"), password: String::from("p") }]);
    assert!(a.login("u", "p").is_ok());
}

#[test]
fn token_store_replaces_and_revokes() {
    let mut s = TokenStore::new();
    assert!(!s.verify("u", "t"));
    s.issue("u", String::from("t1"));
    s.issue("u", String::from("t2"));
    assert!(!s.verify("u", "t1"));
    assert!(s.verify("u", "t2"));
    s.revoke("u");
    assert!(!s.verify("u", "t2"));
}

#[test]
fn random_string_has_requested_length_and_alphabet() {
    for n in [0usize, 1, 32, 100] {
        let s = generate_random_string(n);
        assert_eq!(s.chars().count(), n);
        assert!(is_alphanumeric_token(&s));
    }
    assert_eq!(TOKEN_LENGTH, 32);
    assert_ne!(generate_random_string(32), generate_random_string(32));
}
