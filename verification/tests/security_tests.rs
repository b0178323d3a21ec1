use langgraph::security::metrics::SecurityMetrics;
use langgraph::keyed_map::StrMap;
use langgraph::security::audit::AuditLogger;
use langgraph::security::api_key::ApiKeyAuthenticator;
use langgraph::security::auth::Credentials;
use langgraph::security::auth::Authenticator;
use langgraph::security::AuthError;
use langgraph::security::auth::AuthContext;
use langgraph::security::auth::Permission;
use langgraph::security::auth::CONTEXT_LIFETIME_MS;
use langgraph::security::jwt::JwtAuthenticator;

#[test]
fn test_record_auth_attempt() {
    SecurityMetrics::record_auth_attempt("api_key", true);
    SecurityMetrics::record_auth_attempt("jwt", false);
}

#[test]
fn auth_attempt_event_names_method_and_outcome() {
    let e = SecurityMetrics::record_auth_attempt("jwt", false);
    assert_eq!(e.name, "langgraph_auth_attempts_total");
    assert_eq!(e.labels, vec!["jwt".to_string(), "failure".to_string()]);
}

#[test]
fn test_audit_logging() {
    let mut logger = AuditLogger::new();
    logger.log_event("test_event".to_string(), "user123".to_string(), StrMap::new());

    let events = logger.get_events();
    assert_eq!(events.len(), 1);
    assert_eq!(events[0].event_type, "test_event");
    assert_eq!(events[0].user_id, "user123");
}

#[test]
fn test_api_key_hashing() {
    let mut a = ApiKeyAuthenticator::new();
    let h1 = a.register_key("test-key-123", "u".to_string(), vec![], None).unwrap();
    let h2 = a.register_key("test-key-123", "u".to_string(), vec![], None).unwrap();
    // Same key, same digest: deterministic, 64 hexadecimal characters.
    assert_eq!(h1, h2);
    assert_eq!(h1.len(), 64);
    assert!(h1.chars().all(|c| c.is_ascii_hexdigit() && !c.is_ascii_uppercase()));
    // The SHA-256 digest of "test-key-123", not the key itself.
    assert_ne!(h1, "test-key-123");
    assert_eq!(a.keys.len(), 1);
}

#[test]
fn test_key_registration() {
    let mut a = ApiKeyAuthenticator::new();
    let result = a.register_key("test-key", "user123".to_string(), vec!["admin".to_string()], None);
    assert!(result.is_ok());
}

#[test]
fn test_registered_key_authenticates() {
    let mut a = ApiKeyAuthenticator::new();
    a.register_key("secret-1", "alice".to_string(), vec!["admin".to_string()], Some(5_000)).unwrap();
    let ctx = a.authenticate_at(&Credentials::ApiKey("secret-1".to_string()), 1_000).unwrap();
    assert_eq!(ctx.user_id, "alice");
    assert!(ctx.has_role("admin"));
    assert!(!ctx.has_role("user"));
    assert_eq!(ctx.expires_at, 5_000);
    assert_eq!(ctx.issued_at, 1_000);
    assert_eq!(a.metric_events.len(), 1);
    assert_eq!(a.metric_events[0].name, "langgraph_auth_attempts_total");
    assert_eq!(a.metric_events[0].labels, vec!["api_key".to_string(), "success".to_string()]);
}

#[test]
fn test_api_key_errors() {
    let mut a = ApiKeyAuthenticator::new();
    a.set_audit_logger(AuditLogger::new());
    a.register_key("k", "bob".to_string(), vec![], Some(10)).unwrap();

    // Wrong kind of credentials.
    let r = a.authenticate_at(&Credentials::JwtToken("k".to_string()), 0);
    assert!(matches!(r, Err(AuthError::InvalidCredentials)));
    // Unknown key.
    let r = a.authenticate_at(&Credentials::ApiKey("other".to_string()), 0);
    assert!(matches!(r, Err(AuthError::InvalidCredentials)));
    // Expired key.
    let r = a.authenticate_at(&Credentials::ApiKey("k".to_string()), 11);
    assert!(matches!(r, Err(AuthError::TokenExpired)));
    let events = a.audit_logger.as_ref().unwrap().get_events();
    assert_eq!(events.len(), 1);
    assert_eq!(events[0].event_type, "authentication_failure");
    assert_eq!(events[0].user_id, "bob");
    assert_eq!(events[0].timestamp, 11);
    // Refresh is not supported.
    assert!(matches!(a.refresh_token("x"), Err(AuthError::InvalidToken(_))));
}

#[test]
fn test_api_key_rate_limit() {
    let mut a = ApiKeyAuthenticator::new();
    let h = a.register_key_with_rate_limit("k", "carol".to_string(), vec![], None, 2, 1_000).unwrap();
    let start = a.keys.get(&h).unwrap().rate_limit.unwrap().window_start;
    let creds = Credentials::ApiKey("k".to_string());
    assert!(a.authenticate_at(&creds, start).is_ok());
    assert!(a.authenticate_at(&creds, start + 1).is_ok());
    assert!(matches!(a.authenticate_at(&creds, start + 2), Err(AuthError::RateLimitExceeded)));
    assert_eq!(a.keys.get(&h).unwrap().rate_limit.unwrap().request_count, 2);
    // A new window starts once the old one has run out.
    assert!(a.authenticate_at(&creds, start + 1_000).is_ok());
    let rl = a.keys.get(&h).unwrap().rate_limit.unwrap();
    assert_eq!(rl.request_count, 1);
    assert_eq!(rl.window_start, start + 1_000);
}

#[test]
fn test_auth_context_permissions() {
    let mut c = AuthContext::new_at("u".to_string(), vec!["user".to_string()], 100);
    assert_eq!(c.expires_at, 100 + CONTEXT_LIFETIME_MS);
    assert!(!c.is_expired_at(100 + CONTEXT_LIFETIME_MS));
    assert!(c.is_expired_at(101 + CONTEXT_LIFETIME_MS));
    c.permissions.push(Permission::Custom("deploy".to_string()));
    assert!(c.has_permission(&Permission::Custom("deploy".to_string())));
    assert!(!c.has_permission(&Permission::Custom("other".to_string())));
    assert!(!c.has_permission(&Permission::ReadState));
}

#[test]
fn test_user_events_filter() {
    let mut logger = AuditLogger::new();
    logger.log_event_at("a".to_string(), "u1".to_string(), StrMap::new(), 1);
    logger.log_event_at("b".to_string(), "u2".to_string(), StrMap::new(), 2);
    logger.log_event_at("c".to_string(), "u1".to_string(), StrMap::new(), 3);
    let mine = logger.get_user_events("u1");
    assert_eq!(mine.len(), 2);
    assert_eq!(mine[0].event_type, "a");
    assert_eq!(mine[1].event_type, "c");
    logger.clear();
    assert!(logger.get_events().is_empty());
}

#[test]
fn test_token_generation() {
    let authenticator = JwtAuthenticator::new(
        b"test-secret-key-minimum-32-bytes",
        "test-issuer".to_string(),
        "test-audience".to_string(),
        15 * 60,
    );
    let token = authenticator.generate_token("user123", vec!["admin".to_string()], StrMap::new());
    assert!(token.is_ok());
}

#[test]
fn test_token_validation() {
    let mut authenticator = JwtAuthenticator::new(
        b"test-secret-key-minimum-32-bytes",
        "test-issuer".to_string(),
        "test-audience".to_string(),
        3600,
    );
    let token = authenticator.generate_token("user456", vec!["developer".to_string()], StrMap::new()).unwrap();
    let result = authenticator.validate_token(&token);
    assert!(result.is_ok());
    let auth_context = result.unwrap();
    assert_eq!(auth_context.user_id, "user456");
    assert!(auth_context.has_role("developer"));
    assert!(auth_context.has_permission(&Permission::ExecuteGraph));
    assert!(!auth_context.has_permission(&Permission::DeleteGraph));
}

#[test]
fn jwt_refresh_tokens_are_single_use() {
    let mut a = JwtAuthenticator::new(b"another-secret-key-of-32-bytes!!", "iss".to_string(), "aud".to_string(), 60);
    let pair = a.generate_token_pair("u", vec!["admin".to_string()], StrMap::new()).unwrap();
    assert_eq!(pair.token_type, "Bearer");
    assert_eq!(pair.expires_in, 60);
    // The access token authenticates; the refresh token does not.
    let ctx = a.authenticate(&Credentials::JwtToken(pair.access_token.clone())).unwrap();
    assert_eq!(ctx.permissions.len(), 8);
    assert!(matches!(a.authenticate(&Credentials::JwtToken(pair.refresh_token.clone())), Err(AuthError::InvalidToken(_))));
    assert!(matches!(a.authenticate(&Credentials::ApiKey("k".to_string())), Err(AuthError::InvalidCredentials)));
    // The refresh token works once.
    let second = a.refresh_token(&pair.refresh_token).unwrap();
    assert!(!second.access_token.is_empty());
    let again = a.refresh_token(&pair.refresh_token);
    assert!(matches!(again, Err(AuthError::InvalidToken(m)) if m == "Refresh token has been revoked"));
    // An access token cannot refresh.
    assert!(matches!(a.refresh_token(&pair.access_token), Err(AuthError::InvalidToken(m)) if m == "Expected refresh token"));
    // A token signed with another secret is refused.
    let other = JwtAuthenticator::new(b"a-completely-different-secret!!!", "iss".to_string(), "aud".to_string(), 60);
    let foreign = other.generate_token("u", vec![], StrMap::new()).unwrap();
    assert!(matches!(a.validate_token(&foreign), Err(AuthError::InvalidToken(_))));
    assert!(a.metric_events.iter().any(|e| e.name == "langgraph_security_events_total"));
}

#[test]
fn jwt_expired_token_is_refused() {
    let mut a = JwtAuthenticator::new(b"test-secret-key-minimum-32-bytes", "iss".to_string(), "aud".to_string(), -3600);
    let token = a.generate_token("u", vec![], StrMap::new()).unwrap();
    assert!(matches!(a.validate_token(&token), Err(AuthError::TokenExpired)));
}

#[test]
fn jwt_revocation_and_cleanup() {
    let mut a = JwtAuthenticator::new(b"test-secret-key-minimum-32-bytes", "iss".to_string(), "aud".to_string(), 60);
    a.revoke_token("jti-1".to_string());
    assert!(a.is_token_revoked("jti-1"));
    a.rotation_tracker.insert("jti-1".to_string(), 10);
    a.cleanup_expired_tokens(11);
    assert!(!a.is_token_revoked("jti-1"));
    assert!(a.rotation_tracker.is_empty());
}
