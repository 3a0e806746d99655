//! The request forwarder's computations: the outbound URL for a confirmed
//! tunnel, and the relayed response status.  The header policy that the
//! forwarder applies in both directions lives in `headers`.

use vstd::prelude::*;

use crate::strutil::{spec_dec, u16_to_dec};

verus! {

/// The bound on one outbound forwarded call, in seconds.
pub const FORWARD_TIMEOUT_SECS: u64 = 30;

/// The view of an optional borrowed query string.
pub open spec fn opt_str_view(q: Option<&str>) -> Option<Seq<char>> {
    match q {
        Some(s) => Some(s@),
        None => None,
    }
}

/// The outbound URL for a request: `http://localhost:{port}{path}` with the
/// original query string carried over verbatim.
pub open spec fn spec_target_url(port: u16, path: Seq<char>, query: Option<Seq<char>>) -> Seq<
    char,
> {
    let base = "http://localhost:"@ + spec_dec(port as nat) + path;
    match query {
        Some(q) => base + "?"@ + q,
        None => base,
    }
}

/// Builds the outbound URL towards the tunnel's local port.
pub fn build_target_url(port: u16, path: &str, query: Option<&str>) -> (url: String)
    ensures
        url@ == spec_target_url(port, path@, opt_str_view(query)),
{
    let mut url = String::from_str("http://localhost:");
    let port_digits = u16_to_dec(port);
    url.append(port_digits.as_str());
    url.append(path);
    match query {
        Some(q) => {
            url.append("?");
            url.append(q);
            proof {
                assert(url@ =~= spec_target_url(port, path@, opt_str_view(query)));
            }
        },
        None => {
            proof {
                assert(url@ =~= spec_target_url(port, path@, opt_str_view(query)));
            }
        },
    }
    url
}

/// The status relayed to the client: the backend's status code passes through
/// verbatim whenever it is a well-formed HTTP status, and collapses to 500
/// otherwise.
pub fn relay_status(code: u16) -> (r: u16)
    ensures
        100 <= code < 1000 ==> r == code,
        !(100 <= code < 1000) ==> r == 500,
{
    if 100 <= code && code < 1000 {
        code
    } else {
        500
    }
}

} // verus!
