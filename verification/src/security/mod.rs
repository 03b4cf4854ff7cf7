//! Outcomes of the security checks: IP filtering, rate limiting and
//! authentication.

use vstd::prelude::*;

pub mod auth;
pub mod ip_filter;

use crate::security::auth::AuthManager;
use crate::security::ip_filter::{in_some_network, IpAddress, IpFilter};

verus! {

/// The outcome of all security checks of a request.
#[derive(Debug, Clone, Copy, PartialEq, Eq, Structural)]
pub enum SecurityCheckResult {
    Allowed,
    IpBlocked,
    RateLimited,
    AuthRequired,
    AuthFailed,
}

impl SecurityCheckResult {
    /// Whether the request may go on.
    pub fn is_allowed(&self) -> (b: bool)
        ensures
            b == (*self == SecurityCheckResult::Allowed),
    {
        match self {
            SecurityCheckResult::Allowed => true,
            _ => false,
        }
    }

    /// The message sent back for the outcome.
    pub fn error_message(&self) -> (s: &'static str)
        ensures
            s@ == match *self {
                SecurityCheckResult::Allowed => "OK"@,
                SecurityCheckResult::IpBlocked => "IP address not allowed"@,
                SecurityCheckResult::RateLimited => "Rate limit exceeded"@,
                SecurityCheckResult::AuthRequired => "Authentication required"@,
                SecurityCheckResult::AuthFailed => "Authentication failed"@,
            },
    {
        match self {
            SecurityCheckResult::Allowed => "OK",
            SecurityCheckResult::IpBlocked => "IP address not allowed",
            SecurityCheckResult::RateLimited => "Rate limit exceeded",
            SecurityCheckResult::AuthRequired => "Authentication required",
            SecurityCheckResult::AuthFailed => "Authentication failed",
        }
    }
}

/// The outcome of authenticating a request.
#[derive(Debug, Clone, PartialEq, Eq)]
pub enum AuthResult {
    /// The token is valid; the user it belongs to.
    Authenticated(String),
    /// A token is needed and none was given.
    Unauthenticated,
    /// The token given is not valid.
    InvalidToken,
}

impl AuthResult {
    /// Whether the request is authenticated.
    pub fn is_authenticated(&self) -> (b: bool)
        ensures
            b == (*self is Authenticated),
    {
        match self {
            AuthResult::Authenticated(_) => true,
            _ => false,
        }
    }

    /// The user of an authenticated request.
    pub fn user_id(&self) -> (r: Option<&str>)
        ensures
            match *self {
                AuthResult::Authenticated(u) => r matches Some(s) && s@ == u@,
                _ => r is None,
            },
    {
        match self {
            AuthResult::Authenticated(user_id) => Some(user_id.as_str()),
            _ => None,
        }
    }
}

/// The outcome of IP filtering.
#[derive(Debug, Clone, Copy, PartialEq, Eq, Structural)]
pub enum IpFilterResult {
    Allowed,
    Blocked,
}

impl IpFilterResult {
    /// Whether the address may connect.
    pub fn is_allowed(&self) -> (b: bool)
        ensures
            b == (*self == IpFilterResult::Allowed),
    {
        match self {
            IpFilterResult::Allowed => true,
            IpFilterResult::Blocked => false,
        }
    }
}

/// The outcome of rate limiting.
#[derive(Debug, Clone, Copy, PartialEq, Eq, Structural)]
pub enum RateLimitResult {
    Allowed,
    RateLimited,
}

impl RateLimitResult {
    /// Whether the request is within the limit.
    pub fn is_allowed(&self) -> (b: bool)
        ensures
            b == (*self == RateLimitResult::Allowed),
    {
        match self {
            RateLimitResult::Allowed => true,
            RateLimitResult::RateLimited => false,
        }
    }
}

/// Who a connection is and how it stands.
#[derive(Debug, Clone)]
pub struct SecurityContext {
    pub client_ip: IpAddress,
    pub authenticated: bool,
    pub user_id: Option<String>,
    pub rate_limit_key: String,
}

impl SecurityContext {
    /// A connection not yet authenticated, limited under the given key
    /// (the text form of its address).
    pub fn with_rate_limit_key(client_ip: IpAddress, rate_limit_key: String) -> (c: Self)
        ensures
            c.client_ip == client_ip,
            !c.authenticated,
            c.user_id is None,
            c.rate_limit_key@ == rate_limit_key@,
    {
        SecurityContext { client_ip, authenticated: false, user_id: None, rate_limit_key }
    }

    /// Marks the connection as the given user's.
    pub fn authenticate(&mut self, user_id: String)
        ensures
            final(self).authenticated,
            final(self).user_id matches Some(u) && u@ == user_id@,
            final(self).client_ip == old(self).client_ip,
            final(self).rate_limit_key@ == old(self).rate_limit_key@,
    {
        self.authenticated = true;
        self.user_id = Some(user_id);
    }
}

/// The address filter and the authentication of a server; either may be
/// absent. Rate limiting, which counts time in fractions of tokens, is
/// applied by the caller between the two.
pub struct SecurityManager {
    auth_manager: Option<AuthManager>,
    ip_filter: Option<IpFilter>,
}

impl SecurityManager {
    /// The authentication, if any.
    pub closed spec fn auth(&self) -> Option<AuthManager> {
        self.auth_manager
    }

    /// The address filter, if any.
    pub closed spec fn filter(&self) -> Option<IpFilter> {
        self.ip_filter
    }

    /// The settings hold together: the token list and the filter are
    /// well formed.
    pub open spec fn wf(&self) -> bool {
        &&& self.auth() matches Some(a) ==> a.wf()
        &&& self.filter() matches Some(f) ==> f.wf()
    }

    /// A manager with the given checks.
    pub fn new(auth_manager: Option<AuthManager>, ip_filter: Option<IpFilter>) -> (m: Self)
        ensures
            m.auth() == auth_manager,
            m.filter() == ip_filter,
    {
        SecurityManager { auth_manager, ip_filter }
    }

    /// The address check of a new connection: blocked where a filter is
    /// set and refuses the address, else allowed.
    pub fn check_ip(&self, context: &SecurityContext) -> (r: SecurityCheckResult)
        requires
            self.wf(),
        ensures
            r == match self.filter() {
                Some(f) => if f.allows_all_spec() || f.addresses().contains(context.client_ip)
                    || in_some_network(f.networks(), context.client_ip) {
                    SecurityCheckResult::Allowed
                } else {
                    SecurityCheckResult::IpBlocked
                },
                None => SecurityCheckResult::Allowed,
            },
    {
        match &self.ip_filter {
            Some(f) => match f.check_ip(context.client_ip) {
                IpFilterResult::Allowed => SecurityCheckResult::Allowed,
                IpFilterResult::Blocked => SecurityCheckResult::IpBlocked,
            },
            None => SecurityCheckResult::Allowed,
        }
    }

    /// The answer to a new connection, given the result of the address
    /// check and, where a rate limit is set and the address was allowed,
    /// the rate limit's result (`None` where no limit is set): a refused
    /// address stands; else a limited rate refuses; else allowed.
    pub fn connection_decision(ip_check: SecurityCheckResult, rate: Option<RateLimitResult>) -> (r: SecurityCheckResult)
        ensures
            r == if ip_check != SecurityCheckResult::Allowed {
                ip_check
            } else if rate == Some(RateLimitResult::RateLimited) {
                SecurityCheckResult::RateLimited
            } else {
                SecurityCheckResult::Allowed
            },
    {
        match ip_check {
            SecurityCheckResult::Allowed => {},
            other => return other,
        }
        match rate {
            Some(RateLimitResult::RateLimited) => SecurityCheckResult::RateLimited,
            _ => SecurityCheckResult::Allowed,
        }
    }

    /// Authenticates a command: allowed where no authentication is set;
    /// else allowed, with the connection marked as the token's user, where
    /// authentication succeeds, and refused as unauthenticated or failed
    /// otherwise, with the connection unchanged.
    pub fn authenticate_command(&self, context: &mut SecurityContext, auth_token: Option<&str>) -> (r: SecurityCheckResult)
        requires
            self.wf(),
        ensures
            match self.auth() {
                None => r == SecurityCheckResult::Allowed && *final(context) == *old(context),
                Some(a) => {
                    if !a.needs_token() {
                        r == SecurityCheckResult::Allowed && final(context).authenticated
                            && (final(context).user_id matches Some(u) && u@ == "anonymous"@)
                    } else {
                        match auth_token {
                            None => r == SecurityCheckResult::AuthRequired && *final(context) == *old(context),
                            Some(t) => match a.user_of(t@) {
                                Some(u) => r == SecurityCheckResult::Allowed && final(context).authenticated
                                    && (final(context).user_id matches Some(v) && v@ == u),
                                None => r == SecurityCheckResult::AuthFailed && *final(context) == *old(context),
                            },
                        }
                    }
                },
            },
            final(context).client_ip == old(context).client_ip,
            final(context).rate_limit_key@ == old(context).rate_limit_key@,
    {
        match &self.auth_manager {
            Some(a) => match a.authenticate(auth_token) {
                AuthResult::Authenticated(user_id) => {
                    context.authenticate(user_id);
                    SecurityCheckResult::Allowed
                },
                AuthResult::Unauthenticated => SecurityCheckResult::AuthRequired,
                AuthResult::InvalidToken => SecurityCheckResult::AuthFailed,
            },
            None => SecurityCheckResult::Allowed,
        }
    }
}

} // verus!
