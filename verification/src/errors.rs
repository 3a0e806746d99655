//! The error taxonomy of the proxy core, and its mapping to HTTP status codes.

use vstd::prelude::*;

verus! {

/// Everything that can go wrong while handling one proxied request, plus the
/// `NotProxyTraffic` signal, which is not an error: it tells the caller to
/// fall through to non-proxy routing.
#[derive(Clone, Copy, Debug, PartialEq, Eq, Structural)]
pub enum ProxyError {
    /// The request's host names no subdomain of the configured base host.
    NotProxyTraffic,
    /// The host looks like proxy traffic but carries an empty routing token.
    MalformedHost,
    /// The routing token is not present in the persisted connection catalog.
    TokenNotFound,
    /// The tunnel agent binary is not reachable on this machine.
    AgentUnavailable,
    /// The agent's start command failed, or the tunnel never came online.
    TunnelStartFailed,
    /// The outbound forward did not answer within the request timeout.
    ForwardTimeout,
    /// The outbound forward failed at the transport level.
    ForwardTransportError,
    /// A torn registry access; must never surface.
    InternalRegistryError,
}

/// The HTTP status code that one `ProxyError` maps to at the proxy boundary.
pub fn http_status_of(e: &ProxyError) -> (code: u16)
    ensures
        code == spec_http_status_of(*e),
{
    match e {
        ProxyError::NotProxyTraffic => 404,
        ProxyError::MalformedHost => 400,
        ProxyError::TokenNotFound => 404,
        ProxyError::AgentUnavailable => 503,
        ProxyError::TunnelStartFailed => 500,
        ProxyError::ForwardTimeout => 502,
        ProxyError::ForwardTransportError => 502,
        ProxyError::InternalRegistryError => 500,
    }
}

/// The wire mapping of the error taxonomy: unresolved token 404, malformed
/// token 400, agent unavailable 503, start failure 500, forward failure 502.
pub open spec fn spec_http_status_of(e: ProxyError) -> u16 {
    match e {
        ProxyError::NotProxyTraffic => 404,
        ProxyError::MalformedHost => 400,
        ProxyError::TokenNotFound => 404,
        ProxyError::AgentUnavailable => 503,
        ProxyError::TunnelStartFailed => 500,
        ProxyError::ForwardTimeout => 502,
        ProxyError::ForwardTransportError => 502,
        ProxyError::InternalRegistryError => 500,
    }
}

} // verus!
