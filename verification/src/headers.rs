//! The hop-by-hop header policy of the request forwarder: a fixed set of
//! header names is dropped case-insensitively in both directions, and inbound
//! headers carrying this system's own internal marker prefix are dropped too.

use vstd::prelude::*;

use crate::strutil::{seq_lower, spec_starts_with, starts_with, str_eq_ignore_case};

verus! {

/// Whether a header name, compared without regard to ASCII case, is one of
/// the hop-by-hop headers that a proxy must not forward.
pub open spec fn spec_is_hop_by_hop(name: Seq<char>) -> bool {
    let l = seq_lower(name);
    ||| l == "connection"@
    ||| l == "keep-alive"@
    ||| l == "proxy-authenticate"@
    ||| l == "proxy-authorization"@
    ||| l == "te"@
    ||| l == "trailers"@
    ||| l == "transfer-encoding"@
    ||| l == "upgrade"@
    ||| l == "host"@
}

proof fn lemma_hop_literals_are_lowercase()
    ensures
        seq_lower("connection"@) == "connection"@,
        seq_lower("keep-alive"@) == "keep-alive"@,
        seq_lower("proxy-authenticate"@) == "proxy-authenticate"@,
        seq_lower("proxy-authorization"@) == "proxy-authorization"@,
        seq_lower("te"@) == "te"@,
        seq_lower("trailers"@) == "trailers"@,
        seq_lower("transfer-encoding"@) == "transfer-encoding"@,
        seq_lower("upgrade"@) == "upgrade"@,
        seq_lower("host"@) == "host"@,
{
    reveal_strlit("connection");
    reveal_strlit("keep-alive");
    reveal_strlit("proxy-authenticate");
    reveal_strlit("proxy-authorization");
    reveal_strlit("te");
    reveal_strlit("trailers");
    reveal_strlit("transfer-encoding");
    reveal_strlit("upgrade");
    reveal_strlit("host");
    assert(seq_lower("connection"@) =~= "connection"@);
    assert(seq_lower("keep-alive"@) =~= "keep-alive"@);
    assert(seq_lower("proxy-authenticate"@) =~= "proxy-authenticate"@);
    assert(seq_lower("proxy-authorization"@) =~= "proxy-authorization"@);
    assert(seq_lower("te"@) =~= "te"@);
    assert(seq_lower("trailers"@) =~= "trailers"@);
    assert(seq_lower("transfer-encoding"@) =~= "transfer-encoding"@);
    assert(seq_lower("upgrade"@) =~= "upgrade"@);
    assert(seq_lower("host"@) =~= "host"@);
}

/// Decides whether a header is hop-by-hop, whatever its case.
pub fn is_hop_by_hop_header(name: &str) -> (r: bool)
    ensures
        r == spec_is_hop_by_hop(name@),
{
    proof {
        lemma_hop_literals_are_lowercase();
    }
    str_eq_ignore_case(name, "connection") || str_eq_ignore_case(name, "keep-alive")
        || str_eq_ignore_case(name, "proxy-authenticate") || str_eq_ignore_case(
        name,
        "proxy-authorization",
    ) || str_eq_ignore_case(name, "te") || str_eq_ignore_case(name, "trailers")
        || str_eq_ignore_case(name, "transfer-encoding") || str_eq_ignore_case(name, "upgrade")
        || str_eq_ignore_case(name, "host")
}

/// Whether an inbound header may be forwarded to the tunneled backend: it is
/// not hop-by-hop and does not carry the internal marker prefix reserved for
/// this system's own signaling.
pub open spec fn spec_keep_request_header(name: Seq<char>) -> bool {
    !spec_is_hop_by_hop(name) && !spec_starts_with(name, "x-original-"@)
}

/// Decides whether one inbound header is forwarded.
pub fn should_forward_request_header(name: &str) -> (r: bool)
    ensures
        r == spec_keep_request_header(name@),
{
    !is_hop_by_hop_header(name) && !starts_with(name, "x-original-")
}

/// Whether a backend response header may be relayed to the client: everything
/// but the hop-by-hop set.
pub open spec fn spec_keep_response_header(name: Seq<char>) -> bool {
    !spec_is_hop_by_hop(name)
}

/// The inbound headers that survive the forwarder's policy, in order.
pub fn filter_request_headers(headers: &Vec<(String, String)>) -> (kept: Vec<(String, String)>)
    ensures
        kept@ == headers@.filter(|h: (String, String)| spec_keep_request_header(h.0@)),
{
    let ghost pred = |h: (String, String)| spec_keep_request_header(h.0@);
    let mut kept: Vec<(String, String)> = Vec::new();
    let mut i: usize = 0;
    proof {
        reveal(Seq::filter);
        assert(headers@.take(0).filter(pred) =~= Seq::<(String, String)>::empty());
    }
    while i < headers.len()
        invariant
            i <= headers@.len(),
            pred == (|h: (String, String)| spec_keep_request_header(h.0@)),
            kept@ == headers@.take(i as int).filter(pred),
        decreases headers@.len() - i,
    {
        let ghost prev = headers@.take(i as int);
        let h = &headers[i];
        if should_forward_request_header(h.0.as_str()) {
            kept.push((h.0.clone(), h.1.clone()));
        }
        proof {
            reveal(Seq::filter);
            let cur = headers@.take(i + 1);
            assert(cur.drop_last() =~= prev);
            assert(cur.last() == headers@[i as int]);
        }
        i = i + 1;
    }
    proof {
        assert(headers@.take(headers@.len() as int) =~= headers@);
    }
    kept
}

/// The response headers that survive the forwarder's policy, in order.
pub fn filter_response_headers(headers: &Vec<(String, String)>) -> (kept: Vec<(String, String)>)
    ensures
        kept@ == headers@.filter(|h: (String, String)| spec_keep_response_header(h.0@)),
{
    let ghost pred = |h: (String, String)| spec_keep_response_header(h.0@);
    let mut kept: Vec<(String, String)> = Vec::new();
    let mut i: usize = 0;
    proof {
        reveal(Seq::filter);
        assert(headers@.take(0).filter(pred) =~= Seq::<(String, String)>::empty());
    }
    while i < headers.len()
        invariant
            i <= headers@.len(),
            pred == (|h: (String, String)| spec_keep_response_header(h.0@)),
            kept@ == headers@.take(i as int).filter(pred),
        decreases headers@.len() - i,
    {
        let ghost prev = headers@.take(i as int);
        let h = &headers[i];
        if !is_hop_by_hop_header(h.0.as_str()) {
            kept.push((h.0.clone(), h.1.clone()));
        }
        proof {
            reveal(Seq::filter);
            let cur = headers@.take(i + 1);
            assert(cur.drop_last() =~= prev);
            assert(cur.last() == headers@[i as int]);
        }
        i = i + 1;
    }
    proof {
        assert(headers@.take(headers@.len() as int) =~= headers@);
    }
    kept
}

} // verus!
