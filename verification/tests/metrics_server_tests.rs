use crabcache::server::metrics_handler::{
    error_body, error_response, health_response, http_response, route_request, HttpError,
    MetricsRoute, MetricsServer,
};

#[test]
fn routes_known_pages() {
    assert_eq!(
        route_request(b"GET /metrics HTTP/1.1\r\nHost: x\r\n\r\n"),
        Some(MetricsRoute::Metrics)
    );
    assert_eq!(route_request(b"GET / HTTP/1.1\r\n"), Some(MetricsRoute::Dashboard));
    assert_eq!(route_request(b"GET /dashboard"), Some(MetricsRoute::Dashboard));
    assert_eq!(route_request(b"  GET\t/health  \n"), Some(MetricsRoute::Health));
}

#[test]
fn refuses_bad_requests() {
    assert_eq!(route_request(b""), None);
    assert_eq!(
        route_request(b"GET\r\n/metrics"),
        Some(MetricsRoute::Refused(HttpError::BadRequest))
    );
    assert_eq!(
        route_request(b"POST /metrics HTTP/1.1\r\n"),
        Some(MetricsRoute::Refused(HttpError::MethodNotAllowed))
    );
    assert_eq!(
        route_request(b"get /metrics"),
        Some(MetricsRoute::Refused(HttpError::MethodNotAllowed))
    );
    assert_eq!(
        route_request(b"GET /other HTTP/1.1"),
        Some(MetricsRoute::Refused(HttpError::NotFound))
    );
    assert_eq!(
        route_request(b"\n"),
        Some(MetricsRoute::Refused(HttpError::BadRequest))
    );
}

#[test]
fn error_and_health_answers() {
    assert_eq!(HttpError::NotFound.code(), 404);
    assert_eq!(error_body(HttpError::NotFound), "{\"error\":\"Not Found\",\"code\":404}");
    let body = "{\"error\":\"Method Not Allowed\",\"code\":405}";
    assert_eq!(
        error_response(HttpError::MethodNotAllowed),
        format!(
            "HTTP/1.1 405 Method Not Allowed\r\nContent-Type: application/json\r\nContent-Length: {}\r\nConnection: close\r\n\r\n{}",
            body.len(),
            body
        )
    );
    let health = "{\"status\":\"healthy\",\"service\":\"crabcache\",\"version\":\"1.0.0\"}";
    assert_eq!(
        health_response(),
        format!(
            "HTTP/1.1 200 OK\r\nContent-Type: application/json\r\nContent-Length: {}\r\nConnection: close\r\n\r\n{}",
            health.len(),
            health
        )
    );
    assert_eq!(
        http_response(200, "OK", "text/plain", "é"),
        "HTTP/1.1 200 OK\r\nContent-Type: text/plain\r\nContent-Length: 2\r\nConnection: close\r\n\r\né"
    );
    assert_eq!(MetricsServer::new(9090).port(), 9090);
}
