use session_registry::sessions::{Sessions, SessionsImpl};

#[test]
fn should_create_session() {
    let mut session_service = SessionsImpl::default();
    assert_eq!(session_service.session_count(), 0);
    let session = session_service.create_session("123456");
    assert_eq!(session_service.session_count(), 1);
    assert_eq!(session_service.session_token("123456").unwrap(), session);
}

#[test]
fn should_delete_session() {
    let mut session_service = SessionsImpl::default();
    session_service.create_session("123456");
    session_service.delete_session("123456");
    assert_eq!(session_service.session_count(), 0);
}

#[test]
fn lifecycle_scenario() {
    let mut registry = SessionsImpl::default();
    assert_eq!(registry.session_count(), 0);
    let t1 = registry.create_session("u1");
    assert_eq!(registry.session_count(), 1);
    assert_eq!(registry.session_token("u1").unwrap(), t1);
    let t2 = registry.create_session("u1");
    assert_ne!(t1, t2);
    assert_eq!(registry.session_count(), 1);
    assert_eq!(registry.session_token("u1").unwrap(), t2);
    registry.delete_session("u1");
    assert_eq!(registry.session_count(), 0);
    registry.delete_session("u1");
    assert_eq!(registry.session_count(), 0);
}

#[test]
fn distinct_users_all_complete() {
    let mut registry = SessionsImpl::default();
    let users = ["u1", "u2", "u3", "u4", "u5", "u6", "u7", "u8"];
    let mut tokens: Vec<String> = Vec::new();
    for u in users {
        tokens.push(registry.create_session(u));
    }
    assert_eq!(registry.session_count(), users.len());
    for i in 0..tokens.len() {
        for j in 0..tokens.len() {
            if i != j {
                assert_ne!(tokens[i], tokens[j]);
            }
        }
        assert_eq!(registry.session_token(users[i]).unwrap(), tokens[i]);
    }
}

#[test]
fn distinct_users_isolated() {
    let mut registry = SessionsImpl::default();
    let first_alice = registry.create_session("alice");
    let bob = registry.create_session("bob");
    assert_eq!(registry.session_token("bob").unwrap(), bob);
    let second_alice = registry.create_session("alice");
    assert_eq!(registry.session_token("bob").unwrap(), bob);
    registry.delete_session("alice");
    assert_eq!(registry.session_token("bob").unwrap(), bob);
    assert!(registry.session_token("alice").is_none());
    assert_ne!(first_alice, second_alice);
}

#[test]
fn delete_without_session_is_noop() {
    let mut registry = SessionsImpl::default();
    registry.delete_session("nobody");
    assert_eq!(registry.session_count(), 0);
    let token = registry.create_session("someone");
    registry.delete_session("nobody");
    assert_eq!(registry.session_count(), 1);
    assert_eq!(registry.session_token("someone").unwrap(), token);
}

#[test]
fn token_is_uuid_shaped() {
    let mut registry = SessionsImpl::default();
    let token = registry.create_session("u1");
    assert_eq!(token.chars().count(), 36);
    assert!(token.chars().all(|c| c == '-' || c.is_ascii_hexdigit()));
}
