//! Deterministic naming of tunnel agent processes, so that the same token and
//! port always map to the same externally visible process identity, making
//! restarts idempotent and discoverable.

use vstd::prelude::*;

use crate::strutil::{spec_dec, u16_to_dec};

verus! {

/// The name under which the tunnel agent process for `token` and `port` is
/// started: a fixed prefix, the first eight characters of the token (or all
/// of it when shorter), and the port in decimal.
pub open spec fn spec_connection_name(token: Seq<char>, port: u16) -> Seq<char> {
    let keep = if token.len() >= 8 {
        8int
    } else {
        token.len() as int
    };
    "sando-"@ + token.take(keep) + "-"@ + spec_dec(port as nat)
}

/// Derives the externally visible process name for a tunnel.
pub fn generate_connection_name(connection_string: &str, port: u16) -> (name: String)
    ensures
        name@ == spec_connection_name(connection_string@, port),
{
    let n = connection_string.unicode_len();
    let keep: usize = if n >= 8 {
        8
    } else {
        n
    };
    let short = connection_string.substring_char(0, keep);
    let mut name = String::from_str("sando-");
    name.append(short);
    name.append("-");
    let port_digits = u16_to_dec(port);
    name.append(port_digits.as_str());
    proof {
        assert(name@ =~= spec_connection_name(connection_string@, port));
    }
    name
}

} // verus!
