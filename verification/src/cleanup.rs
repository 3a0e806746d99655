//! The cleanup scheduler's policy: how often the registry is swept, when an
//! entry counts as idle, and what one sweep cycle does to it.  The shell runs
//! the loop itself; each cycle asks the registry to `sweep` and retires every
//! reported entry through the supervisor.

use vstd::prelude::*;

use crate::registry::{
    has_key, index_of_key, lemma_set_status_props, spec_key, spec_set_status, spec_stale,
    spec_sweep, spec_wf, TunnelStateModel, TunnelStatus,
};

verus! {

/// The poll interval of the cleanup loop, in seconds.
pub const CLEANUP_INTERVAL_SECS: u64 = 60;

/// The idle time after which an online tunnel is reclaimed, in seconds.
pub const CLEANUP_TTL_SECS: u64 = 300;

/// One sweep cycle retires exactly the idle entries.  An `Online` entry last
/// used more than the time-to-live ago is reported by the sweep, and the stop
/// it triggers moves it, and nothing else, to `Stopped`; an entry touched
/// within the window is not reported, and stays exactly as it was through the
/// retirement of any entry under another key.
pub proof fn lemma_sweep_cycle(rs: Seq<TunnelStateModel>, now: u64, ttl: u64, i: int)
    requires
        spec_wf(rs),
        0 <= i < rs.len(),
    ensures
        spec_stale(rs[i], now, ttl) ==> spec_sweep(rs, now, ttl).contains(rs[i]),
        spec_stale(rs[i], now, ttl) ==> ({
            let after = spec_set_status(rs, rs[i].token, rs[i].port, TunnelStatus::Stopped);
            &&& after[i] == (TunnelStateModel { status: TunnelStatus::Stopped, ..rs[i] })
            &&& after.len() == rs.len()
            &&& forall|k: int| 0 <= k < rs.len() && k != i ==> after[k] == rs[k]
        }),
        !spec_stale(rs[i], now, ttl) ==> !spec_sweep(rs, now, ttl).contains(rs[i]),
        forall|token: Seq<char>, port: u16|
            (token, port) != spec_key(rs[i]) ==> #[trigger] spec_set_status(
                rs,
                token,
                port,
                TunnelStatus::Stopped,
            )[i] == rs[i],
{
    let pred = |e: TunnelStateModel| spec_stale(e, now, ttl);
    if spec_stale(rs[i], now, ttl) {
        rs.lemma_filter_contains(pred, i);
        lemma_set_status_props(rs, rs[i].token, rs[i].port, TunnelStatus::Stopped);
        assert(spec_key(rs[i]) == (rs[i].token, rs[i].port));
        assert forall|k: int| 0 <= k < rs.len() && k != i implies spec_set_status(
            rs,
            rs[i].token,
            rs[i].port,
            TunnelStatus::Stopped,
        )[k] == rs[k] by {
            assert(spec_key(rs[k]) != spec_key(rs[i]));
        }
    } else {
        let swept = spec_sweep(rs, now, ttl);
        if swept.contains(rs[i]) {
            let k = choose|k: int| 0 <= k < swept.len() && swept[k] == rs[i];
            rs.lemma_filter_pred(pred, k);
        }
    }
    assert forall|token: Seq<char>, port: u16| (token, port) != spec_key(rs[i]) implies
        #[trigger] spec_set_status(rs, token, port, TunnelStatus::Stopped)[i] == rs[i] by {
        lemma_set_status_props(rs, token, port, TunnelStatus::Stopped);
        assert(spec_key(rs[i]) != (token, port));
    }
}

} // verus!
