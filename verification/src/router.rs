//! The subdomain router: given the request's `Host` header and the configured
//! base host, decide whether the request is proxy traffic and, if so, which
//! routing token it carries.

use vstd::prelude::*;

use crate::strutil::{ends_with, find_char, first_where, lemma_first_where_at, spec_ends_with};

verus! {

/// Why a host did not yield a routing token.
#[derive(Clone, Copy, Debug, PartialEq, Eq, Structural)]
pub enum SubdomainError {
    /// The host is not a subdomain of the base host at all; the caller should
    /// fall through to non-proxy routing.
    NotApplicable,
    /// The host is a subdomain of the base host, but the token before it is
    /// empty; a client error, distinct from `NotApplicable`.
    Malformed,
}

/// The host with any trailing `:port` stripped: the characters before the
/// first `':'`.
pub open spec fn spec_host_without_port(host: Seq<char>) -> Seq<char> {
    host.take(first_where(host, |c: char| c == ':'))
}

/// What the router decides for a raw host against the configured base host:
/// strip any `:port`, and if the rest is `{token}.{base}` with a non-empty
/// token, that token routes the request; the bare base host (or any other
/// host) is not proxy traffic, and an empty token is malformed.
pub open spec fn spec_extract(host: Seq<char>, base: Seq<char>) -> Result<Seq<char>, SubdomainError> {
    let hwp = spec_host_without_port(host);
    let suffix = "."@ + base;
    if spec_ends_with(hwp, suffix) {
        if hwp.len() > suffix.len() {
            Ok(hwp.take(hwp.len() - suffix.len()))
        } else {
            Err(SubdomainError::Malformed)
        }
    } else {
        Err(SubdomainError::NotApplicable)
    }
}

/// Extracts the routing token from a request host, e.g. the token part of
/// `{token}.{base}:{port}`.
pub fn extract_subdomain(host: &str, configured_host: &str) -> (r: Result<String, SubdomainError>)
    ensures
        match r {
            Ok(token) => spec_extract(host@, configured_host@) == Ok::<Seq<char>, SubdomainError>(
                token@,
            ),
            Err(e) => spec_extract(host@, configured_host@) == Err::<Seq<char>, SubdomainError>(e),
        },
{
    let ghost cl = |c: char| c == ':';
    let host_without_port = match find_char(host, ':') {
        Some(i) => {
            proof {
                assert forall|k: int| 0 <= k < i implies !cl(host@[k]) by {
                    assert(host@[k] != ':');
                }
                assert(cl(host@[i as int]));
                lemma_first_where_at(host@, cl, i as int);
            }
            host.substring_char(0, i)
        },
        None => {
            proof {
                assert forall|k: int| 0 <= k < host@.len() implies !cl(host@[k]) by {
                    assert(host@[k] != ':');
                }
                lemma_first_where_at(host@, cl, host@.len() as int);
                assert(host@.take(host@.len() as int) =~= host@);
            }
            host
        },
    };
    let mut suffix = String::from_str(".");
    suffix.append(configured_host);
    if ends_with(host_without_port, suffix.as_str()) {
        let h_len = host_without_port.unicode_len();
        let s_len = suffix.as_str().unicode_len();
        if h_len > s_len {
            let token = host_without_port.substring_char(0, h_len - s_len);
            Ok(token.to_owned())
        } else {
            Err(SubdomainError::Malformed)
        }
    } else {
        Err(SubdomainError::NotApplicable)
    }
}

/// Whether an inbound host is proxy traffic at all: true for every host whose
/// stripped form is `{something}.{base}`, even with an empty token, so that
/// such a request is answered by the proxy (with an error) rather than by the
/// non-proxy routes.
pub fn is_proxy_host(host: &str, configured_host: &str) -> (r: bool)
    ensures
        r == (spec_extract(host@, configured_host@) != Err::<Seq<char>, SubdomainError>(
            SubdomainError::NotApplicable,
        )),
{
    match extract_subdomain(host, configured_host) {
        Ok(_) => true,
        Err(SubdomainError::Malformed) => true,
        Err(SubdomainError::NotApplicable) => false,
    }
}

} // verus!
