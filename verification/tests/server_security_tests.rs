use crabcache::protocol::commands::{Command, Response};
use crabcache::security::{AuthResult, IpFilterResult, RateLimitResult, SecurityCheckResult, SecurityManager};
use crabcache::server::connection_metrics::ConnectionMetrics;
use crabcache::server::handler::RequestHandler;

#[test]
fn security_results() {
    assert!(SecurityCheckResult::Allowed.is_allowed());
    assert!(!SecurityCheckResult::RateLimited.is_allowed());
    assert_eq!(SecurityCheckResult::IpBlocked.error_message(), "IP address not allowed");
    assert_eq!(SecurityCheckResult::Allowed.error_message(), "OK");
    let auth = AuthResult::Authenticated("alice".to_string());
    assert!(auth.is_authenticated());
    assert_eq!(auth.user_id(), Some("alice"));
    assert_eq!(AuthResult::InvalidToken.user_id(), None);
    assert!(IpFilterResult::Allowed.is_allowed());
    assert!(!IpFilterResult::Blocked.is_allowed());
    assert!(RateLimitResult::Allowed.is_allowed());
    assert!(!RateLimitResult::RateLimited.is_allowed());
}

#[test]
fn connection_metrics_snapshot() {
    let mut m = ConnectionMetrics::new();
    assert_eq!(m.snapshot().min_latency_ns, 0);
    m.connection_opened();
    m.connection_opened();
    m.connection_closed();
    m.record_latency_ns(100);
    m.record_latency_ns(300);
    m.record_command_latency(std::time::Duration::from_nanos(200));
    m.record_parse_error();
    m.record_buffer_pool_hit();
    let s = m.snapshot();
    assert_eq!(s.total_connections, 2);
    assert_eq!(s.active_connections, 1);
    assert_eq!(s.total_commands, 3);
    assert_eq!(s.avg_latency_ns, 200);
    assert_eq!(s.min_latency_ns, 100);
    assert_eq!(s.max_latency_ns, 300);
    assert_eq!(s.parse_errors, 1);
    assert_eq!(s.buffer_pool_hits, 1);
}

#[test]
fn handler_answers_pong() {
    assert_eq!(RequestHandler::handle_command(Command::Ping), Ok(Response::Pong));
}

#[test]
fn connection_counts_follow_opens_and_closes() {
    let mut m = ConnectionMetrics::new();
    let events = [true, true, false, true, false, false, true];
    for open in events {
        if open {
            m.connection_opened();
        } else {
            m.connection_closed();
        }
    }
    let s = m.snapshot();
    assert_eq!(s.active_connections, 1);
    assert_eq!(s.total_connections, 4);
}

#[test]
fn connection_decision_checks_address_then_rate() {
    assert_eq!(
        SecurityManager::connection_decision(SecurityCheckResult::IpBlocked, Some(RateLimitResult::RateLimited)),
        SecurityCheckResult::IpBlocked
    );
    assert_eq!(
        SecurityManager::connection_decision(SecurityCheckResult::Allowed, Some(RateLimitResult::RateLimited)),
        SecurityCheckResult::RateLimited
    );
    assert_eq!(
        SecurityManager::connection_decision(SecurityCheckResult::Allowed, Some(RateLimitResult::Allowed)),
        SecurityCheckResult::Allowed
    );
    assert_eq!(SecurityManager::connection_decision(SecurityCheckResult::Allowed, None), SecurityCheckResult::Allowed);
}
