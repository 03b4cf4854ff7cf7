use crabcache::security::auth::AuthManager;
use crabcache::security::ip_filter::{IpAddress, IpFilter};
use crabcache::security::{AuthResult, SecurityCheckResult, SecurityContext, SecurityManager};

#[test]
fn test_auth_manager_no_auth_required() {
    let auth_manager = AuthManager::new(false);
    let result = auth_manager.authenticate(None);
    assert_eq!(result, AuthResult::Authenticated("anonymous".to_string()));
    let result = auth_manager.authenticate(Some("invalid_token"));
    assert_eq!(result, AuthResult::Authenticated("anonymous".to_string()));
}

#[test]
fn test_auth_manager_with_token() {
    let auth_manager = AuthManager::with_token("secret123".to_string(), "user1".to_string());
    let result = auth_manager.authenticate(Some("secret123"));
    assert_eq!(result, AuthResult::Authenticated("user1".to_string()));
    let result = auth_manager.authenticate(Some("invalid"));
    assert_eq!(result, AuthResult::InvalidToken);
    let result = auth_manager.authenticate(None);
    assert_eq!(result, AuthResult::Unauthenticated);
}

#[test]
fn test_auth_manager_add_remove_tokens() {
    let mut auth_manager = AuthManager::new(true);
    auth_manager.add_token("token1".to_string(), "user1".to_string());
    let result = auth_manager.authenticate(Some("token1"));
    assert_eq!(result, AuthResult::Authenticated("user1".to_string()));
    let removed = auth_manager.remove_token("token1");
    assert!(removed);
    let result = auth_manager.authenticate(Some("token1"));
    assert_eq!(result, AuthResult::InvalidToken);
}

#[test]
fn auth_manager_replaces_and_lists() {
    let mut m = AuthManager::new(true);
    m.add_token("a".to_string(), "u1".to_string());
    m.add_token("b".to_string(), "u2".to_string());
    m.add_token("a".to_string(), "u3".to_string());
    assert_eq!(m.token_count(), 2);
    assert_eq!(m.list_users(), vec!["u3".to_string(), "u2".to_string()]);
    assert_eq!(m.authenticate(Some("a")), AuthResult::Authenticated("u3".to_string()));
    assert!(!m.remove_token("zzz"));
    assert!(m.remove_token("a"));
    assert_eq!(m.token_count(), 1);
    assert_eq!(m.authenticate(Some("b")).user_id(), Some("u2"));
    assert!(m.is_required());
}

#[test]
fn security_manager_checks() {
    let ip = IpAddress::V4(0x7f000001);
    let mut filter = IpFilter::empty(false);
    filter.add_allowed_address(ip);
    let manager = SecurityManager::new(
        Some(AuthManager::with_token("t".to_string(), "alice".to_string())),
        Some(filter),
    );
    let mut ctx = SecurityContext::with_rate_limit_key(ip, "127.0.0.1".to_string());
    assert_eq!(manager.check_ip(&ctx), SecurityCheckResult::Allowed);
    let other = SecurityContext::with_rate_limit_key(IpAddress::V4(1), "0.0.0.1".to_string());
    assert_eq!(manager.check_ip(&other), SecurityCheckResult::IpBlocked);
    assert_eq!(manager.authenticate_command(&mut ctx, None), SecurityCheckResult::AuthRequired);
    assert_eq!(manager.authenticate_command(&mut ctx, Some("x")), SecurityCheckResult::AuthFailed);
    assert!(!ctx.authenticated);
    assert_eq!(manager.authenticate_command(&mut ctx, Some("t")), SecurityCheckResult::Allowed);
    assert!(ctx.authenticated);
    assert_eq!(ctx.user_id.as_deref(), Some("alice"));
    let open = SecurityManager::new(None, None);
    let mut c2 = SecurityContext::with_rate_limit_key(ip, "k".to_string());
    assert_eq!(open.authenticate_command(&mut c2, None), SecurityCheckResult::Allowed);
    assert!(!c2.authenticated);
}
