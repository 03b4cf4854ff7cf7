//! The HTTP side of the metrics server: which page a request asks for, and
//! the responses that need no figures (health and errors).

use crate::protocol::text::{
    append_decimal, chars_of, decimal_chars, find_char, find_char_in, skip_non_ws, skip_non_ws_in,
    skip_ws, skip_ws_in, str_eq, string_from_utf8_lossy, utf8_lossy,
};
use vstd::prelude::*;
use vstd::utf8::encode_utf8;

verus! {

/// An HTTP error the metrics server answers with.
#[derive(Debug, Clone, Copy, PartialEq, Eq)]
pub enum HttpError {
    BadRequest,
    NotFound,
    MethodNotAllowed,
    InternalServerError,
}

/// Its status code.
pub open spec fn error_code(e: HttpError) -> u16 {
    match e {
        HttpError::BadRequest => 400,
        HttpError::NotFound => 404,
        HttpError::MethodNotAllowed => 405,
        HttpError::InternalServerError => 500,
    }
}

/// Its reason phrase.
pub open spec fn error_text(e: HttpError) -> Seq<char> {
    match e {
        HttpError::BadRequest => "Bad Request"@,
        HttpError::NotFound => "Not Found"@,
        HttpError::MethodNotAllowed => "Method Not Allowed"@,
        HttpError::InternalServerError => "Internal Server Error"@,
    }
}

impl HttpError {
    /// The status code.
    pub fn code(&self) -> (c: u16)
        ensures
            c == error_code(*self),
    {
        match self {
            HttpError::BadRequest => 400,
            HttpError::NotFound => 404,
            HttpError::MethodNotAllowed => 405,
            HttpError::InternalServerError => 500,
        }
    }

    /// The reason phrase.
    pub fn text(&self) -> (t: &'static str)
        ensures
            t@ == error_text(*self),
    {
        match self {
            HttpError::BadRequest => "Bad Request",
            HttpError::NotFound => "Not Found",
            HttpError::MethodNotAllowed => "Method Not Allowed",
            HttpError::InternalServerError => "Internal Server Error",
        }
    }
}

/// What a request to the metrics server asks for.
#[derive(Debug, Clone, Copy, PartialEq, Eq)]
pub enum MetricsRoute {
    /// The figures in the Prometheus text format (`/metrics`).
    Metrics,
    /// The HTML dashboard (`/dashboard` or `/`).
    Dashboard,
    /// The health document (`/health`).
    Health,
    /// An error answer.
    Refused(HttpError),
}

/// The first line of a text as `str::lines` gives it: up to the first line
/// feed, without a carriage return just before it; none for empty text.
pub open spec fn first_line(t: Seq<char>) -> Option<Seq<char>> {
    if t.len() == 0 {
        None
    } else {
        let p = find_char(t, '\n', 0);
        if p < t.len() {
            let l = t.subrange(0, p);
            if l.len() > 0 && l.last() == '\r' {
                Some(l.drop_last())
            } else {
                Some(l)
            }
        } else {
            Some(t)
        }
    }
}

/// The page a request line asks for: its first two words, split at white
/// space, are the method and the path; only `GET` is served.
pub open spec fn route_of_line(line: Seq<char>) -> MetricsRoute {
    let a0 = skip_ws(line, 0);
    let e0 = skip_non_ws(line, a0);
    let a1 = skip_ws(line, e0);
    let e1 = skip_non_ws(line, a1);
    let path = line.subrange(a1, e1);
    if a1 >= line.len() {
        MetricsRoute::Refused(HttpError::BadRequest)
    } else if line.subrange(a0, e0) != "GET"@ {
        MetricsRoute::Refused(HttpError::MethodNotAllowed)
    } else if path == "/metrics"@ {
        MetricsRoute::Metrics
    } else if path == "/dashboard"@ || path == "/"@ {
        MetricsRoute::Dashboard
    } else if path == "/health"@ {
        MetricsRoute::Health
    } else {
        MetricsRoute::Refused(HttpError::NotFound)
    }
}

/// What the server does with the bytes of a request: nothing for an empty
/// read; else the route of the first line of the text that
/// `String::from_utf8_lossy` makes of them, and a bad request where there is
/// no line.
pub open spec fn request_route(request: Seq<u8>) -> Option<MetricsRoute> {
    if request.len() == 0 {
        None
    } else {
        match first_line(utf8_lossy(request)) {
            None => Some(MetricsRoute::Refused(HttpError::BadRequest)),
            Some(l) => Some(route_of_line(l)),
        }
    }
}

/// Routes the bytes of a request (see `request_route`).
pub fn route_request(request: &[u8]) -> (r: Option<MetricsRoute>)
    ensures
        r == request_route(request@),
{
    if request.len() == 0 {
        return None;
    }
    let text = string_from_utf8_lossy(request);
    let s = text.as_str();
    let cs = chars_of(s);
    let n = cs.len();
    if n == 0 {
        return Some(MetricsRoute::Refused(HttpError::BadRequest));
    }
    let p = find_char_in(&cs, '\n', 0, n);
    assert(cs@.subrange(0, n as int) =~= cs@);
    let mut end = p;
    if p < n && p > 0 && cs[p - 1] == '\r' {
        end = p - 1;
    }
    proof {
        let t = cs@;
        if p < n {
            let l = t.subrange(0, p as int);
            if l.len() > 0 && l.last() == '\r' {
                assert(l.drop_last() =~= t.subrange(0, end as int));
            }
        } else {
            assert(t.subrange(0, end as int) =~= t);
        }
    }
    let line = s.substring_char(0, end);
    let lc = chars_of(line);
    let m = lc.len();
    let a0 = skip_ws_in(&lc, 0);
    let e0 = skip_non_ws_in(&lc, a0);
    let a1 = skip_ws_in(&lc, e0);
    let e1 = skip_non_ws_in(&lc, a1);
    if a1 >= m {
        return Some(MetricsRoute::Refused(HttpError::BadRequest));
    }
    let method = line.substring_char(a0, e0);
    let path = line.substring_char(a1, e1);
    proof {
        reveal_strlit("GET");
        reveal_strlit("/metrics");
        reveal_strlit("/dashboard");
        reveal_strlit("/");
        reveal_strlit("/health");
    }
    if !str_eq(method, "GET") {
        Some(MetricsRoute::Refused(HttpError::MethodNotAllowed))
    } else if str_eq(path, "/metrics") {
        Some(MetricsRoute::Metrics)
    } else if str_eq(path, "/dashboard") || str_eq(path, "/") {
        Some(MetricsRoute::Dashboard)
    } else if str_eq(path, "/health") {
        Some(MetricsRoute::Health)
    } else {
        Some(MetricsRoute::Refused(HttpError::NotFound))
    }
}

/// An HTTP/1.1 response that closes the connection: status line, content
/// type, the body's length in UTF-8 bytes (as `str::len` gives it), and the
/// body.
pub open spec fn response_text(code: nat, reason: Seq<char>, content_type: Seq<char>, body: Seq<char>) -> Seq<char> {
    "HTTP/1.1 "@ + decimal_chars(code) + " "@ + reason + "\r\nContent-Type: "@ + content_type
        + "\r\nContent-Length: "@ + decimal_chars((encode_utf8(body).len() as usize) as nat)
        + "\r\nConnection: close\r\n\r\n"@
        + body
}

/// Writes the response (see `response_text`).
pub fn http_response(code: u16, reason: &str, content_type: &str, body: &str) -> (r: String)
    ensures
        r@ == response_text(code as nat, reason@, content_type@, body@),
{
    let mut r = String::new();
    r.append("HTTP/1.1 ");
    append_decimal(&mut r, code as usize);
    r.append(" ");
    r.append(reason);
    r.append("\r\nContent-Type: ");
    r.append(content_type);
    r.append("\r\nContent-Length: ");
    append_decimal(&mut r, body.len());
    r.append("\r\nConnection: close\r\n\r\n");
    r.append(body);
    r
}

/// The JSON body of an error answer: `{"error":"<reason>","code":<code>}`.
pub open spec fn error_body_text(e: HttpError) -> Seq<char> {
    "{\"error\":\""@ + error_text(e) + "\",\"code\":"@ + decimal_chars(error_code(e) as nat) + "}"@
}

/// Writes the body of an error answer.
pub fn error_body(e: HttpError) -> (b: String)
    ensures
        b@ == error_body_text(e),
{
    let mut b = String::new();
    b.append("{\"error\":\"");
    b.append(e.text());
    b.append("\",\"code\":");
    append_decimal(&mut b, e.code() as usize);
    b.append("}");
    b
}

/// The complete error answer, in JSON.
pub fn error_response(e: HttpError) -> (r: String)
    ensures
        r@ == response_text(error_code(e) as nat, error_text(e), "application/json"@, error_body_text(e)),
{
    let body = error_body(e);
    http_response(e.code(), e.text(), "application/json", body.as_str())
}

/// The health document.
pub open spec fn health_body_text() -> Seq<char> {
    "{\"status\":\"healthy\",\"service\":\"crabcache\",\"version\":\"1.0.0\"}"@
}

/// The complete health answer, in JSON with status 200.
pub fn health_response() -> (r: String)
    ensures
        r@ == response_text(200, "OK"@, "application/json"@, health_body_text()),
{
    http_response(
        200,
        "OK",
        "application/json",
        "{\"status\":\"healthy\",\"service\":\"crabcache\",\"version\":\"1.0.0\"}",
    )
}

/// The metrics server's settings: the port it listens on.
pub struct MetricsServer {
    port: u16,
}

impl MetricsServer {
    /// The port.
    pub closed spec fn port_spec(&self) -> u16 {
        self.port
    }

    /// A server for a port.
    pub fn new(port: u16) -> (s: Self)
        ensures
            s.port_spec() == port,
    {
        MetricsServer { port }
    }

    /// The port.
    pub fn port(&self) -> (p: u16)
        ensures
            p == self.port_spec(),
    {
        self.port
    }
}

} // verus!
